//! Putting the answer of a model together from the events of its stream.
use crate::json;
use crate::json::{Json, JsonView};
use crate::message;
use crate::message::{FunctionCall, Message, MessageView, Role, ToolCall, ToolCallView};
use crate::text;
use vstd::prelude::*;
use vstd::string::*;

verus! {

/// Why a stream ended early.
#[derive(Debug)]
pub enum StreamError {
    /// An event is not JSON; this is the message of the reader.
    Invalid(String),
    /// The model says that it failed.
    Failed(String),
    /// A tool call has a number that no list can hold.
    CallIndex,
}

/// Why a stream ended early.
pub enum StreamFault {
    Invalid(Seq<char>),
    Failed(Seq<char>),
    CallIndex,
}

impl View for StreamError {
    type V = StreamFault;

    open spec fn view(&self) -> StreamFault {
        match *self {
            StreamError::Invalid(s) => StreamFault::Invalid(s@),
            StreamError::Failed(s) => StreamFault::Failed(s@),
            StreamError::CallIndex => StreamFault::CallIndex,
        }
    }
}

impl StreamError {
    /// What a person is told, where `context` says what was read.
    pub fn message(&self, context: &str) -> (s: String)
        ensures
            s@ == (match self@ {
                StreamFault::Invalid(m) => context@ + ": "@ + m,
                StreamFault::Failed(m) => m,
                StreamFault::CallIndex => "a tool call of the stream has no usable index"@,
            }),
    {
        match self {
            StreamError::Invalid(m) => text::cat3(context, ": ", m),
            StreamError::Failed(m) => m.clone(),
            StreamError::CallIndex => "a tool call of the stream has no usable index".to_owned(),
        }
    }
}

/// Whether an event says nothing.
pub open spec fn says_nothing(data: Seq<char>) -> bool {
    text::trimmed(data).len() == 0 || text::trimmed(data) == "[DONE]"@
}

fn is_silent(data: &str) -> (r: bool)
    ensures
        r == says_nothing(data@),
{
    let trimmed = text::trim(data);
    trimmed.is_empty() || text::same(trimmed, "[DONE]")
}

// ---------------------------------------------------------------------------
// The whole answer

/// The answer of a model: a text, tool calls, or both.
pub open spec fn answer_of(text: Seq<char>, calls: Seq<ToolCallView>) -> MessageView {
    MessageView {
        role: Role::Assistant,
        sequence: None,
        created_at: None,
        content: if text.len() == 0 {
            None
        } else {
            Some(text)
        },
        tool_calls: if calls.len() == 0 {
            None
        } else {
            Some(calls)
        },
        tool_call_id: None,
        hidden: false,
    }
}

/// The answer of a model, where it says anything.
pub fn completed_message(text: String, calls: Vec<ToolCall>, empty_error: &str) -> (r: Result<
    Message,
    String,
>)
    ensures
        match r {
            Ok(m) => (text@.len() > 0 || calls@.len() > 0) && m@ == answer_of(
                text@,
                message::call_views(calls@),
            ),
            Err(e) => text@.len() == 0 && calls@.len() == 0 && e@ == empty_error@,
        },
{
    let silent = text.as_str().is_empty();
    if silent && calls.len() == 0 {
        return Err(empty_error.to_owned());
    }
    let content = if silent {
        None
    } else {
        Some(text)
    };
    let tool_calls = if calls.len() == 0 {
        None
    } else {
        Some(calls)
    };
    Ok(
        Message {
            role: Role::Assistant,
            sequence: None,
            created_at: None,
            content,
            tool_calls,
            tool_call_id: None,
            hidden: false,
        },
    )
}

// ---------------------------------------------------------------------------
// The stream of responses

/// An answer in the making, from a stream of responses.
#[derive(Debug)]
pub struct ResponsesStream {
    pub text: String,
    pub calls: Vec<ToolCall>,
    pub completed_output: Option<Vec<Json>>,
}

/// An answer in the making.
#[verifier::ext_equal]
pub struct ResponsesView {
    pub text: Seq<char>,
    pub calls: Seq<ToolCallView>,
    pub completed_output: Option<Seq<JsonView>>,
}

impl View for ResponsesStream {
    type V = ResponsesView;

    open spec fn view(&self) -> ResponsesView {
        ResponsesView {
            text: self.text@,
            calls: message::call_views(self.calls@),
            completed_output: match self.completed_output {
                Some(items) => Some(json::item_views(items@)),
                None => None,
            },
        }
    }
}

/// The answer after more text came, and the text to be shown.
pub open spec fn with_text(s: ResponsesView, delta: Seq<char>) -> (ResponsesView, Option<Seq<char>>) {
    if delta.len() == 0 {
        (s, None)
    } else {
        (ResponsesView { text: s.text + delta, ..s }, Some(delta))
    }
}

/// The texts of the first `n` parts of a message.
pub open spec fn part_texts(parts: Seq<JsonView>, n: nat) -> Seq<char>
    decreases n,
{
    if n == 0 {
        Seq::empty()
    } else {
        part_texts(parts, (n - 1) as nat) + (match parts[n - 1].text_field("text"@) {
            Some(t) => t,
            None => Seq::empty(),
        })
    }
}

/// The text of a message item.
pub open spec fn item_text(item: JsonView) -> Seq<char> {
    match item.field("content"@) {
        Some(content) => match content.items() {
            Some(parts) => part_texts(parts, parts.len()),
            None => Seq::empty(),
        },
        None => Seq::empty(),
    }
}

/// The answer after a whole item came, and the text to be shown. A message whose text was streamed
/// already adds nothing.
pub open spec fn with_output(s: ResponsesView, item: JsonView) -> (ResponsesView, Option<Seq<char>>) {
    if item.text_field("type"@) == Some("message"@) {
        let t = item_text(item);
        if text::finishes_with(s.text, t) {
            (s, None)
        } else {
            with_text(s, t)
        }
    } else if item.text_field("type"@) == Some("function_call"@) && item.text_field("call_id"@) is Some
        && item.text_field("name"@) is Some {
        (
            ResponsesView {
                calls: s.calls.push(
                    ToolCallView {
                        id: item.text_field("call_id"@)->0,
                        kind: "function"@,
                        name: item.text_field("name"@)->0,
                        arguments: match item.text_field("arguments"@) {
                            Some(a) => a,
                            None => "{}"@,
                        },
                    },
                ),
                ..s
            },
            None,
        )
    } else {
        (s, None)
    }
}

/// What a failed response says.
pub open spec fn failure_of(event: JsonView) -> Seq<char> {
    let inner = match event.field_of_field("response"@, "error"@) {
        Some(e) => e.field("message"@),
        None => None,
    };
    let found = match inner {
        Some(m) => Some(m),
        None => match event.field_of_field("error"@, "message"@) {
            Some(m) => Some(m),
            None => event.field("message"@),
        },
    };
    match found {
        Some(m) => match m.text() {
            Some(t) => t,
            None => "the ChatGPT response failed"@,
        },
        None => "the ChatGPT response failed"@,
    }
}

/// The answer after an event, and the text to be shown.
pub open spec fn after_event(s: ResponsesView, event: JsonView) -> Result<
    (ResponsesView, Option<Seq<char>>),
    StreamFault,
> {
    match event.text_field("type"@) {
        Some(kind) => if kind == "response.output_text.delta"@ {
            match event.text_field("delta"@) {
                Some(delta) => Ok(with_text(s, delta)),
                None => Ok((s, None)),
            }
        } else if kind == "response.output_item.done"@ {
            match event.field("item"@) {
                Some(item) => Ok(with_output(s, item)),
                None => Ok((s, None)),
            }
        } else if kind == "response.completed"@ {
            Ok(
                (
                    ResponsesView {
                        completed_output: match event.field_of_field("response"@, "output"@) {
                            Some(output) => output.items(),
                            None => None,
                        },
                        ..s
                    },
                    None,
                ),
            )
        } else if kind == "response.failed"@ || kind == "response.incomplete"@ || kind == "error"@ {
            Err(StreamFault::Failed(failure_of(event)))
        } else {
            Ok((s, None))
        },
        None => Ok((s, None)),
    }
}

/// The answer after the data of an event, and the text to be shown.
pub open spec fn after_data(s: ResponsesView, data: Seq<char>) -> Result<
    (ResponsesView, Option<Seq<char>>),
    StreamFault,
> {
    if says_nothing(data) {
        Ok((s, None))
    } else {
        match json::read_json(data) {
            Err(m) => Err(StreamFault::Invalid(m)),
            Ok(event) => after_event(s, event),
        }
    }
}

/// The answer after the first `n` whole items.
pub open spec fn with_outputs(s: ResponsesView, items: Seq<JsonView>, n: nat) -> ResponsesView
    decreases n,
{
    if n == 0 {
        s
    } else {
        with_output(with_outputs(s, items, (n - 1) as nat), items[n - 1]).0
    }
}

/// The answer when the stream has ended: where nothing was streamed, what the end of the stream
/// says.
pub open spec fn at_end(s: ResponsesView) -> ResponsesView {
    if s.text.len() == 0 && s.calls.len() == 0 && s.completed_output is Some {
        with_outputs(
            ResponsesView { completed_output: None, ..s },
            s.completed_output->0,
            s.completed_output->0.len(),
        )
    } else {
        s
    }
}

fn text_of_item(item: &Json) -> (r: String)
    ensures
        r@ == item_text(item@),
{
    let mut r = String::new();
    if let Some(content) = item.get("content") {
        if let Some(parts) = content.as_array() {
            let ghost views = json::item_views(parts@);
            proof {
                json::lemma_item_views(parts@);
            }
            let mut i: usize = 0;
            while i < parts.len()
                invariant
                    i <= parts@.len(),
                    views == json::item_views(parts@),
                    views.len() == parts@.len(),
                    forall|j: int|
                        0 <= j < parts@.len() ==> #[trigger] views[j] == json::json_view(
                            parts@[j],
                        ),
                    r@ == part_texts(views, i as nat),
                decreases parts@.len() - i,
            {
                assert(views[i as int] == parts@[i as int]@);
                if let Some(t) = parts[i].get_str("text") {
                    r.append(t);
                } else {
                    assert(r@ + Seq::<char>::empty() == r@);
                }
                i += 1;
            }
        }
    }
    r
}

/// What a failed response says.
fn failure_message(event: &Json) -> (r: String)
    ensures
        r@ == failure_of(event@),
{
    let mut found: Option<&Json> = None;
    if let Some(error) = event.get_in("response", "error") {
        found = error.get("message");
    }
    if found.is_none() {
        found = event.get_in("error", "message");
    }
    if found.is_none() {
        found = event.get("message");
    }
    if let Some(m) = found {
        if let Some(t) = m.as_str() {
            return t.to_owned();
        }
    }
    "the ChatGPT response failed".to_owned()
}

fn copy_items(items: &Vec<Json>) -> (r: Vec<Json>)
    ensures
        json::item_views(r@) == json::item_views(items@),
{
    let mut r: Vec<Json> = Vec::new();
    let mut i: usize = 0;
    while i < items.len()
        invariant
            i <= items@.len(),
            r@.len() == i,
            forall|j: int|
                0 <= j < i ==> json::json_view(#[trigger] r@[j]) == json::json_view(items@[j]),
        decreases items@.len() - i,
    {
        r.push(items[i].copy());
        i += 1;
    }
    proof {
        json::lemma_item_views(r@);
        json::lemma_item_views(items@);
        assert(json::item_views(r@) == json::item_views(items@));
    }
    r
}

impl ResponsesStream {
    /// An answer before anything came.
    pub fn new() -> (s: ResponsesStream)
        ensures
            s@ == (ResponsesView {
                text: Seq::empty(),
                calls: Seq::empty(),
                completed_output: None,
            }),
    {
        let s = ResponsesStream { text: String::new(), calls: Vec::new(), completed_output: None };
        assert(s@.calls == Seq::<ToolCallView>::empty());
        s
    }

    fn append_text(&mut self, delta: &str) -> (r: Option<String>)
        ensures
            (final(self)@, message::opt_view(r)) == with_text(old(self)@, delta@),
    {
        if delta.is_empty() {
            return None;
        }
        self.text.append(delta);
        Some(delta.to_owned())
    }

    fn collect_item(&mut self, item: &Json) -> (r: Option<String>)
        ensures
            (final(self)@, message::opt_view(r)) == with_output(old(self)@, item@),
    {
        let ghost before = self@;
        if let Some(kind) = item.get_str("type") {
            if text::same(kind, "message") {
                let t = text_of_item(item);
                if !text::ends_with(&self.text, &t) {
                    return self.append_text(&t);
                }
            } else if text::same(kind, "function_call") {
                if let Some(id) = item.get_str("call_id") {
                    if let Some(name) = item.get_str("name") {
                        let arguments = match item.get_str("arguments") {
                            Some(a) => a.to_owned(),
                            None => "{}".to_owned(),
                        };
                        let call = ToolCall {
                            id: id.to_owned(),
                            kind: "function".to_owned(),
                            function: FunctionCall { name: name.to_owned(), arguments },
                        };
                        let ghost v = call@;
                        self.calls.push(call);
                        assert(message::call_views(self.calls@) == before.calls.push(v));
                    }
                }
            }
        }
        None
    }

    /// Takes an event in; gives the text to be shown.
    pub fn push_event(&mut self, event: &Json) -> (r: Result<Option<String>, StreamError>)
        ensures
            match after_event(old(self)@, event@) {
                Ok(next) => (r matches Ok(shown) && (final(self)@, message::opt_view(shown))
                    == next),
                Err(f) => (r matches Err(e) && e@ == f) && *final(self) == *old(self),
            },
    {
        if let Some(kind) = event.get_str("type") {
            if text::same(kind, "response.output_text.delta") {
                if let Some(delta) = event.get_str("delta") {
                    return Ok(self.append_text(delta));
                }
            } else if text::same(kind, "response.output_item.done") {
                if let Some(item) = event.get("item") {
                    return Ok(self.collect_item(item));
                }
            } else if text::same(kind, "response.completed") {
                self.completed_output = match event.get_in("response", "output") {
                    Some(output) => match output.as_array() {
                        Some(items) => Some(copy_items(items)),
                        None => None,
                    },
                    None => None,
                };
            } else if text::same(kind, "response.failed") || text::same(
                kind,
                "response.incomplete",
            ) || text::same(kind, "error") {
                return Err(StreamError::Failed(failure_message(event)));
            }
        }
        Ok(None)
    }

    /// Takes the data of an event in; gives the text to be shown.
    pub fn push(&mut self, data: &str) -> (r: Result<Option<String>, StreamError>)
        ensures
            match after_data(old(self)@, data@) {
                Ok(next) => (r matches Ok(shown) && (final(self)@, message::opt_view(shown))
                    == next),
                Err(f) => (r matches Err(e) && e@ == f) && *final(self) == *old(self),
            },
    {
        if is_silent(data) {
            return Ok(None);
        }
        match json::parse_json(data) {
            Ok(event) => self.push_event(&event),
            Err(m) => Err(StreamError::Invalid(m)),
        }
    }

    /// The answer when the stream has ended.
    pub fn finish(self) -> (r: Result<Message, String>)
        ensures
            ({
                let end = at_end(self@);
                match r {
                    Ok(m) => (end.text.len() > 0 || end.calls.len() > 0) && m@ == answer_of(
                        end.text,
                        end.calls,
                    ),
                    Err(e) => end.text.len() == 0 && end.calls.len() == 0 && e@
                        == "ChatGPT returned no message or tool call"@,
                }
            }),
    {
        let mut s = self;
        let ghost start = s@;
        if s.text.as_str().is_empty() && s.calls.len() == 0 && s.completed_output.is_some() {
            let items = s.completed_output.unwrap();
            s.completed_output = None;
            let ghost views = json::item_views(items@);
            let ghost base = s@;
            proof {
                json::lemma_item_views(items@);
            }
            assert(base == (ResponsesView { completed_output: None, ..start }));
            let mut i: usize = 0;
            while i < items.len()
                invariant
                    i <= items@.len(),
                    views == json::item_views(items@),
                    views.len() == items@.len(),
                    forall|j: int|
                        0 <= j < items@.len() ==> #[trigger] views[j] == json::json_view(
                            items@[j],
                        ),
                    s@ == with_outputs(base, views, i as nat),
                decreases items@.len() - i,
            {
                assert(views[i as int] == items@[i as int]@);
                let _ = s.collect_item(&items[i]);
                i += 1;
            }
        }
        completed_message(s.text, s.calls, "ChatGPT returned no message or tool call")
    }
}

// ---------------------------------------------------------------------------
// The stream of chat completions

/// A tool call in the making.
#[derive(Debug)]
pub struct ChatToolCall {
    pub id: String,
    pub name: String,
    pub arguments: String,
}

/// An answer in the making, from a stream of chat completions.
#[derive(Debug)]
pub struct ChatCompletionStream {
    pub text: String,
    pub calls: Vec<ChatToolCall>,
}

/// A tool call in the making.
#[verifier::ext_equal]
pub struct ChatCallView {
    pub id: Seq<char>,
    pub name: Seq<char>,
    pub arguments: Seq<char>,
}

/// An answer in the making.
#[verifier::ext_equal]
pub struct ChatView {
    pub text: Seq<char>,
    pub calls: Seq<ChatCallView>,
}

impl View for ChatToolCall {
    type V = ChatCallView;

    open spec fn view(&self) -> ChatCallView {
        ChatCallView { id: self.id@, name: self.name@, arguments: self.arguments@ }
    }
}

/// Tool calls in the making.
pub open spec fn chat_calls(calls: Seq<ChatToolCall>) -> Seq<ChatCallView> {
    Seq::new(calls.len(), |i: int| calls[i]@)
}

impl View for ChatCompletionStream {
    type V = ChatView;

    open spec fn view(&self) -> ChatView {
        ChatView { text: self.text@, calls: chat_calls(self.calls@) }
    }
}

/// A tool call of which nothing is known.
pub open spec fn empty_call() -> ChatCallView {
    ChatCallView { id: Seq::empty(), name: Seq::empty(), arguments: Seq::empty() }
}

/// The calls, filled up so that there is one at `index`.
pub open spec fn filled(calls: Seq<ChatCallView>, index: int) -> Seq<ChatCallView> {
    if calls.len() <= index {
        calls + Seq::new((index + 1 - calls.len()) as nat, |i: int| empty_call())
    } else {
        calls
    }
}

/// `s` with an optional text behind it.
pub open spec fn extended(s: Seq<char>, more: Option<Seq<char>>) -> Seq<char> {
    match more {
        Some(t) => s + t,
        None => s,
    }
}

/// Which call a part of a call belongs to.
pub open spec fn call_index(call: JsonView) -> int {
    match call.unsigned_field("index"@) {
        Some(n) => (n as usize) as int,
        None => 0,
    }
}

/// A text field of the function of a part of a call.
pub open spec fn function_field(call: JsonView, name: Seq<char>) -> Option<Seq<char>> {
    match call.field_of_field("function"@, name) {
        Some(j) => j.text(),
        None => None,
    }
}

/// The calls after a part of one came.
pub open spec fn with_call(calls: Seq<ChatCallView>, call: JsonView) -> Seq<ChatCallView> {
    let index = call_index(call);
    let all = filled(calls, index);
    all.update(
        index,
        ChatCallView {
            id: extended(all[index].id, call.text_field("id"@)),
            name: extended(all[index].name, function_field(call, "name"@)),
            arguments: extended(all[index].arguments, function_field(call, "arguments"@)),
        },
    )
}

/// The calls after the first `n` parts.
pub open spec fn with_calls(calls: Seq<ChatCallView>, parts: Seq<JsonView>, n: nat) -> Seq<ChatCallView>
    decreases n,
{
    if n == 0 {
        calls
    } else {
        with_call(with_calls(calls, parts, (n - 1) as nat), parts[n - 1])
    }
}

/// What an event adds to the answer.
pub open spec fn delta_of(event: JsonView) -> Option<JsonView> {
    match event.field("choices"@) {
        Some(choices) => match choices.first() {
            Some(choice) => choice.field("delta"@),
            None => None,
        },
        None => None,
    }
}

/// The parts of calls that an event adds.
pub open spec fn call_parts(delta: JsonView) -> Seq<JsonView> {
    match delta.field("tool_calls"@) {
        Some(calls) => match calls.items() {
            Some(parts) => parts,
            None => Seq::empty(),
        },
        None => Seq::empty(),
    }
}

/// Whether every part of a call belongs to a call that a list can hold.
pub open spec fn indexes_fit(parts: Seq<JsonView>) -> bool {
    forall|i: int| 0 <= i < parts.len() ==> call_index(#[trigger] parts[i]) < usize::MAX
}

/// Whether an event adds only to calls that a list can hold.
pub open spec fn event_fits(event: JsonView) -> bool {
    delta_of(event) matches Some(delta) ==> indexes_fit(call_parts(delta))
}

/// What an event says of a failure.
pub open spec fn chat_failure(event: JsonView) -> Option<Seq<char>> {
    match event.field_of_field("error"@, "message"@) {
        Some(m) => m.text(),
        None => None,
    }
}

/// The text that an event adds, where it adds any.
pub open spec fn added_text(delta: JsonView) -> Option<Seq<char>> {
    match delta.text_field("content"@) {
        Some(t) => if t.len() == 0 {
            None
        } else {
            Some(t)
        },
        None => None,
    }
}

/// The answer after an event, and the text to be shown.
pub open spec fn after_chat_event(s: ChatView, event: JsonView) -> Result<
    (ChatView, Option<Seq<char>>),
    StreamFault,
> {
    match chat_failure(event) {
        Some(m) => Err(StreamFault::Failed(m)),
        None => match delta_of(event) {
            None => Ok((s, None)),
            Some(delta) => {
                let parts = call_parts(delta);
                Ok(
                    (
                        ChatView {
                            text: extended(s.text, added_text(delta)),
                            calls: with_calls(s.calls, parts, parts.len()),
                        },
                        added_text(delta),
                    ),
                )
            },
        },
    }
}

/// The answer after the data of an event, and the text to be shown.
pub open spec fn after_chat_data(s: ChatView, data: Seq<char>) -> Result<
    (ChatView, Option<Seq<char>>),
    StreamFault,
> {
    if says_nothing(data) {
        Ok((s, None))
    } else {
        match json::read_json(data) {
            Err(m) => Err(StreamFault::Invalid(m)),
            Ok(event) => if chat_failure(event) is None && !event_fits(event) {
                Err(StreamFault::CallIndex)
            } else {
                after_chat_event(s, event)
            },
        }
    }
}

/// The calls among the first `n` that have an id and a name.
pub open spec fn whole_calls(calls: Seq<ChatCallView>, n: nat) -> Seq<ToolCallView>
    decreases n,
{
    if n == 0 {
        Seq::empty()
    } else {
        let before = whole_calls(calls, (n - 1) as nat);
        let call = calls[n - 1];
        if call.id.len() > 0 && call.name.len() > 0 {
            before.push(
                ToolCallView {
                    id: call.id,
                    kind: "function"@,
                    name: call.name,
                    arguments: if call.arguments.len() == 0 {
                        "{}"@
                    } else {
                        call.arguments
                    },
                },
            )
        } else {
            before
        }
    }
}

fn index_of_call(call: &Json) -> (r: usize)
    ensures
        r as int == call_index(call@),
{
    match call.get_u64("index") {
        Some(n) => n as usize,
        None => 0,
    }
}

fn event_is_usable(event: &Json) -> (r: bool)
    ensures
        r == event_fits(event@),
{
    if let Some(choices) = event.get("choices") {
        if let Some(choice) = choices.first() {
            if let Some(delta) = choice.get("delta") {
                if let Some(calls) = delta.get("tool_calls") {
                    if let Some(parts) = calls.as_array() {
                        let ghost views = json::item_views(parts@);
                        proof {
                            json::lemma_item_views(parts@);
                        }
                        let mut i: usize = 0;
                        while i < parts.len()
                            invariant
                                i <= parts@.len(),
                                views == json::item_views(parts@),
                                views.len() == parts@.len(),
                                forall|j: int|
                                    0 <= j < parts@.len() ==> #[trigger] views[j]
                                        == json::json_view(parts@[j]),
                                delta_of(event@) == Some(delta@),
                                call_parts(delta@) == views,
                                forall|j: int|
                                    0 <= j < i ==> call_index(#[trigger] views[j]) < usize::MAX,
                            decreases parts@.len() - i,
                        {
                            assert(views[i as int] == parts@[i as int]@);
                            if index_of_call(&parts[i]) == usize::MAX {
                                assert(!(call_index(views[i as int]) < usize::MAX));
                                return false;
                            }
                            i += 1;
                        }
                    }
                }
            }
        }
    }
    true
}

impl ChatCompletionStream {
    /// An answer before anything came.
    pub fn new() -> (s: ChatCompletionStream)
        ensures
            s@ == (ChatView { text: Seq::empty(), calls: Seq::empty() }),
    {
        let s = ChatCompletionStream { text: String::new(), calls: Vec::new() };
        assert(s@.calls == Seq::<ChatCallView>::empty());
        s
    }

    fn add_part(&mut self, call: &Json)
        requires
            call_index(call@) < usize::MAX,
        ensures
            final(self)@ == (ChatView { calls: with_call(old(self)@.calls, call@), ..old(self)@ }),
    {
        let ghost before = self@;
        let index: usize = index_of_call(call);
        while self.calls.len() <= index
            invariant
                index < usize::MAX,
                self.text@ == before.text,
                self.calls@.len() >= before.calls.len(),
                self.calls@.len() <= index + 1 || self.calls@.len() == before.calls.len(),
                forall|j: int|
                    0 <= j < self.calls@.len() ==> #[trigger] self.calls@[j]@ == (if j
                        < before.calls.len() {
                        before.calls[j]
                    } else {
                        empty_call()
                    }),
            decreases index + 1 - self.calls@.len(),
        {
            self.calls.push(
                ChatToolCall { id: String::new(), name: String::new(), arguments: String::new() },
            );
        }
        let ghost all = self@.calls;
        assert(all == filled(before.calls, index as int));
        if let Some(id) = call.get_str("id") {
            self.calls[index].id.append(id);
        }
        if let Some(name) = call.get_in("function", "name") {
            if let Some(t) = name.as_str() {
                self.calls[index].name.append(t);
            }
        }
        if let Some(arguments) = call.get_in("function", "arguments") {
            if let Some(t) = arguments.as_str() {
                self.calls[index].arguments.append(t);
            }
        }
        assert(self@.calls == with_call(before.calls, call@));
    }

    /// Takes an event in; gives the text to be shown.
    pub fn push_event(&mut self, event: &Json) -> (r: Result<Option<String>, StreamError>)
        requires
            event_fits(event@),
        ensures
            match after_chat_event(old(self)@, event@) {
                Ok(next) => (r matches Ok(shown) && (final(self)@, message::opt_view(shown))
                    == next),
                Err(f) => (r matches Err(e) && e@ == f) && *final(self) == *old(self),
            },
    {
        if let Some(m) = event.get_in("error", "message") {
            if let Some(t) = m.as_str() {
                return Err(StreamError::Failed(t.to_owned()));
            }
        }
        let choices = match event.get("choices") {
            Some(choices) => choices,
            None => {
                return Ok(None);
            },
        };
        let choice = match choices.first() {
            Some(choice) => choice,
            None => {
                return Ok(None);
            },
        };
        let delta = match choice.get("delta") {
            Some(delta) => delta,
            None => {
                return Ok(None);
            },
        };
        let mut shown: Option<String> = None;
        if let Some(content) = delta.get_str("content") {
            if !content.is_empty() {
                self.text.append(content);
                shown = Some(content.to_owned());
            }
        }
        let ghost base = self@;
        if let Some(calls) = delta.get("tool_calls") {
            if let Some(parts) = calls.as_array() {
                let ghost views = json::item_views(parts@);
                proof {
                    json::lemma_item_views(parts@);
                }
                let mut i: usize = 0;
                while i < parts.len()
                    invariant
                        i <= parts@.len(),
                        views == json::item_views(parts@),
                        views.len() == parts@.len(),
                        forall|j: int|
                            0 <= j < parts@.len() ==> #[trigger] views[j] == json::json_view(
                                parts@[j],
                            ),
                        indexes_fit(views),
                        self@ == (ChatView {
                            calls: with_calls(base.calls, views, i as nat),
                            ..base
                        }),
                    decreases parts@.len() - i,
                {
                    assert(views[i as int] == parts@[i as int]@);
                    self.add_part(&parts[i]);
                    i += 1;
                }
            }
        }
        Ok(shown)
    }

    /// Takes the data of an event in; gives the text to be shown.
    pub fn push(&mut self, data: &str) -> (r: Result<Option<String>, StreamError>)
        ensures
            match after_chat_data(old(self)@, data@) {
                Ok(next) => (r matches Ok(shown) && (final(self)@, message::opt_view(shown))
                    == next),
                Err(f) => (r matches Err(e) && e@ == f) && *final(self) == *old(self),
            },
    {
        if is_silent(data) {
            return Ok(None);
        }
        match json::parse_json(data) {
            Ok(event) => {
                if let Some(m) = event.get_in("error", "message") {
                    if let Some(t) = m.as_str() {
                        return Err(StreamError::Failed(t.to_owned()));
                    }
                }
                if !event_is_usable(&event) {
                    return Err(StreamError::CallIndex);
                }
                self.push_event(&event)
            },
            Err(m) => Err(StreamError::Invalid(m)),
        }
    }

    /// The answer when the stream has ended.
    pub fn finish(self) -> (r: Result<Message, String>)
        ensures
            ({
                let calls = whole_calls(self@.calls, self@.calls.len());
                match r {
                    Ok(m) => (self@.text.len() > 0 || calls.len() > 0) && m@ == answer_of(
                        self@.text,
                        calls,
                    ),
                    Err(e) => self@.text.len() == 0 && calls.len() == 0 && e@
                        == "model returned no message or tool call"@,
                }
            }),
    {
        let ghost all = self@.calls;
        let mut calls: Vec<ToolCall> = Vec::new();
        let mut i: usize = 0;
        assert(message::call_views(calls@) == Seq::<ToolCallView>::empty());
        while i < self.calls.len()
            invariant
                i <= self.calls@.len(),
                all == chat_calls(self.calls@),
                message::call_views(calls@) == whole_calls(all, i as nat),
            decreases self.calls@.len() - i,
        {
            let ghost before = message::call_views(calls@);
            assert(all[i as int] == self.calls@[i as int]@);
            let call = &self.calls[i];
            if !call.id.as_str().is_empty() && !call.name.as_str().is_empty() {
                let arguments = if call.arguments.as_str().is_empty() {
                    "{}".to_owned()
                } else {
                    call.arguments.clone()
                };
                let whole = ToolCall {
                    id: call.id.clone(),
                    kind: "function".to_owned(),
                    function: FunctionCall { name: call.name.clone(), arguments },
                };
                let ghost v = whole@;
                calls.push(whole);
                assert(message::call_views(calls@) == before.push(v));
            }
            i += 1;
        }
        assert(message::call_views(calls@).len() == calls@.len());
        completed_message(self.text, calls, "model returned no message or tool call")
    }
}

/// What is shown of a stream of responses is the text of the answer, piece by piece.
pub proof fn shown_responses_are_the_text(s: ResponsesView, data: Seq<char>)
    ensures
        after_data(s, data) matches Ok((next, shown)) ==> next.text == extended(s.text, shown),
{
}

/// What is shown of a stream of chat completions is the text of the answer, piece by piece.
pub proof fn shown_chat_is_the_text(s: ChatView, data: Seq<char>)
    ensures
        after_chat_data(s, data) matches Ok((next, shown)) ==> next.text == extended(
            s.text,
            shown,
        ),
{
}

// ---------------------------------------------------------------------------
// What becomes of what comes

/// Whether an event adds `delta` to the answer and tells of no failure.
pub open spec fn adds(event: JsonView, delta: JsonView) -> bool {
    &&& event.field("error"@) is None
    &&& event.field("choices"@) matches Some(JsonView::Array(choices)) && choices.len() > 0
        && choices[0].field("delta"@) == Some(delta)
}

/// What a field says, where it is a text.
pub open spec fn said(value: JsonView, name: Seq<char>) -> Seq<char> {
    match value.field(name) {
        Some(JsonView::Text(t)) => t,
        _ => Seq::empty(),
    }
}

/// What a field of the function of a part of a call says, where it is a text.
pub open spec fn said_of_function(part: JsonView, name: Seq<char>) -> Seq<char> {
    match part.field("function"@) {
        Some(function) => said(function, name),
        None => Seq::empty(),
    }
}

proof fn lemma_one_part(s: ChatView, event: JsonView, delta: JsonView, part: JsonView)
    requires
        adds(event, delta),
        delta.field("tool_calls"@) == Some(JsonView::Array(seq![part])),
    ensures
        after_chat_event(s, event) matches Ok((next, shown)) && next.calls == with_call(
            s.calls,
            part,
        ),
{
    let parts = seq![part];
    assert(delta_of(event) == Some(delta));
    assert(call_parts(delta) == parts);
    assert(with_calls(s.calls, parts, 0) == s.calls);
    assert(with_calls(s.calls, parts, 1) == with_call(s.calls, parts[0]));
}

proof fn lemma_extended(s: Seq<char>, more: Option<Seq<char>>)
    ensures
        extended(s, more) == s + (if more is Some {
            more->0
        } else {
            Seq::empty()
        }),
{
    assert(s + Seq::<char>::empty() == s);
}

/// A part of a tool call extends the call at the place that its index tells, or the first where it
/// tells none, by its id, its name and its arguments. It leaves every other call as it was, and places
/// that nothing was said of yet stay empty.
pub proof fn a_part_extends_its_own_call(
    s: ChatView,
    event: JsonView,
    delta: JsonView,
    part: JsonView,
    n: u64,
)
    requires
        adds(event, delta),
        delta.field("tool_calls"@) == Some(JsonView::Array(seq![part])),
        part.field("index"@) == Some(JsonView::Number(json::NumberView::Unsigned(n))) || (
        part.field("index"@) is None && n == 0),
        n < usize::MAX,
    ensures
        after_chat_event(s, event) matches Ok((next, shown)) && {
            &&& next.calls.len() == (if s.calls.len() > n {
                s.calls.len() as int
            } else {
                n + 1
            })
            &&& forall|j: int|
                0 <= j < s.calls.len() && j != n ==> #[trigger] next.calls[j] == s.calls[j]
            &&& forall|j: int|
                s.calls.len() <= j < n ==> (#[trigger] next.calls[j]).id.len() == 0
                    && next.calls[j].name.len() == 0 && next.calls[j].arguments.len() == 0
            &&& n < s.calls.len() ==> {
                &&& next.calls[n as int].id == s.calls[n as int].id + said(part, "id"@)
                &&& next.calls[n as int].name == s.calls[n as int].name + said_of_function(
                    part,
                    "name"@,
                )
                &&& next.calls[n as int].arguments == s.calls[n as int].arguments
                    + said_of_function(part, "arguments"@)
            }
            &&& n >= s.calls.len() ==> {
                &&& next.calls[n as int].id == said(part, "id"@)
                &&& next.calls[n as int].name == said_of_function(part, "name"@)
                &&& next.calls[n as int].arguments == said_of_function(part, "arguments"@)
            }
        },
{
    lemma_one_part(s, event, delta, part);
    assert(call_index(part) == n);
    let all = filled(s.calls, n as int);
    assert(all[n as int] == if n < s.calls.len() {
        s.calls[n as int]
    } else {
        empty_call()
    });
    lemma_extended(all[n as int].id, part.text_field("id"@));
    lemma_extended(all[n as int].name, function_field(part, "name"@));
    lemma_extended(all[n as int].arguments, function_field(part, "arguments"@));
    assert(Seq::<char>::empty() + said(part, "id"@) == said(part, "id"@));
    assert(Seq::<char>::empty() + said_of_function(part, "name"@) == said_of_function(
        part,
        "name"@,
    ));
    assert(Seq::<char>::empty() + said_of_function(part, "arguments"@) == said_of_function(
        part,
        "arguments"@,
    ));
}

/// Parts of tool calls that come in one event add what they add where the last of them comes in an
/// event of its own.
pub proof fn parts_may_come_one_by_one(
    s: ChatView,
    event: JsonView,
    delta: JsonView,
    first: JsonView,
    first_delta: JsonView,
    second: JsonView,
    second_delta: JsonView,
    parts: Seq<JsonView>,
    part: JsonView,
)
    requires
        adds(event, delta),
        adds(first, first_delta),
        adds(second, second_delta),
        delta.field("tool_calls"@) == Some(JsonView::Array(parts.push(part))),
        first_delta.field("tool_calls"@) == Some(JsonView::Array(parts)),
        second_delta.field("tool_calls"@) == Some(JsonView::Array(seq![part])),
    ensures
        after_chat_event(s, first) matches Ok((between, _)) && after_chat_event(
            between,
            second,
        ) matches Ok((one_by_one, _)) && after_chat_event(s, event) matches Ok((at_once, _))
            && at_once.calls == one_by_one.calls,
{
    assert(delta_of(event) == Some(delta));
    assert(delta_of(first) == Some(first_delta));
    assert(delta_of(second) == Some(second_delta));
    let all = parts.push(part);
    let between = after_chat_event(s, first)->Ok_0.0;
    lemma_one_part(between, second, second_delta, part);
    lemma_same_parts(s.calls, parts, all, parts.len());
    assert(all[all.len() - 1] == part);
}

proof fn lemma_same_parts(
    calls: Seq<ChatCallView>,
    a: Seq<JsonView>,
    b: Seq<JsonView>,
    n: nat,
)
    requires
        n <= a.len(),
        n <= b.len(),
        forall|i: int| 0 <= i < n ==> a[i] == b[i],
    ensures
        with_calls(calls, a, n) == with_calls(calls, b, n),
    decreases n,
{
    if n > 0 {
        lemma_same_parts(calls, a, b, (n - 1) as nat);
    }
}

/// An event without parts of calls leaves the calls as they were.
pub proof fn text_leaves_the_calls_alone(s: ChatView, event: JsonView, delta: JsonView)
    requires
        adds(event, delta),
        delta.field("tool_calls"@) is None,
    ensures
        after_chat_event(s, event) matches Ok((next, _)) && next.calls == s.calls,
{
    assert(delta_of(event) == Some(delta));
}

/// Text that comes is added to the end of the answer and shown as it comes; an event without text
/// adds and shows none.
pub proof fn chat_text_is_added_and_shown(s: ChatView, event: JsonView, delta: JsonView)
    requires
        adds(event, delta),
    ensures
        after_chat_event(s, event) matches Ok((next, shown)) && {
            &&& next.text == s.text + said(delta, "content"@)
            &&& said(delta, "content"@).len() > 0 ==> shown == Some(said(delta, "content"@))
            &&& said(delta, "content"@).len() == 0 ==> shown is None
        },
{
    assert(delta_of(event) == Some(delta));
    assert(s.text + Seq::<char>::empty() == s.text);
    assert(s.text + said(delta, "content"@) == extended(s.text, added_text(delta)));
}

/// A failure that the stream tells of ends it with what the stream says.
pub proof fn a_failed_stream_says_why(s: ChatView, event: JsonView, message: Seq<char>)
    requires
        event.field("error"@) matches Some(error) && error.field("message"@) == Some(
            JsonView::Text(message),
        ),
    ensures
        after_chat_event(s, event) matches Err(StreamFault::Failed(m)) && m == message,
{
}

/// An event counts as what its data reads as, unless the data is blank or the mark of the end, which
/// change nothing; data that does not read ends the stream.
pub proof fn events_count_as_they_read(s: ChatView, r: ResponsesView, data: Seq<char>)
    ensures
        text::trimmed(data).len() == 0 || text::trimmed(data) == "[DONE]"@ ==> {
            &&& after_chat_data(s, data) == Ok::<(ChatView, Option<Seq<char>>), StreamFault>(
                (s, None),
            )
            &&& after_data(r, data) == Ok::<(ResponsesView, Option<Seq<char>>), StreamFault>(
                (r, None),
            )
        },
        text::trimmed(data).len() > 0 && text::trimmed(data) != "[DONE]"@ ==> {
            &&& json::read_json(data) matches Ok(event) ==> {
                &&& after_data(r, data) == after_event(r, event)
                &&& event_fits(event) ==> after_chat_data(s, data) == after_chat_event(s, event)
            }
            &&& json::read_json(data) matches Err(m) ==> {
                &&& after_data(r, data) == Err::<
                    (ResponsesView, Option<Seq<char>>),
                    StreamFault,
                >(StreamFault::Invalid(m))
                &&& after_chat_data(s, data) == Err::<(ChatView, Option<Seq<char>>), StreamFault>(
                    StreamFault::Invalid(m),
                )
            }
        },
{
}

proof fn lemma_whole_calls_take(calls: Seq<ChatCallView>, more: Seq<ChatCallView>, n: nat)
    requires
        n <= calls.len(),
    ensures
        whole_calls(calls + more, n) == whole_calls(calls, n),
    decreases n,
{
    if n > 0 {
        lemma_whole_calls_take(calls, more, (n - 1) as nat);
        assert((calls + more)[n - 1] == calls[n - 1]);
    }
}

proof fn lemma_whole_calls_add(a: Seq<ChatCallView>, b: Seq<ChatCallView>, n: nat)
    requires
        n <= b.len(),
    ensures
        whole_calls(a + b, a.len() + n) == whole_calls(a, a.len()) + whole_calls(b, n),
    decreases n,
{
    if n == 0 {
        lemma_whole_calls_take(a, b, a.len());
        assert(whole_calls(a, a.len()) + Seq::<ToolCallView>::empty() == whole_calls(a, a.len()));
    } else {
        lemma_whole_calls_add(a, b, (n - 1) as nat);
        assert((a + b)[a.len() + n - 1] == b[n - 1]);
        let x = whole_calls(a, a.len());
        let y = whole_calls(b, (n - 1) as nat);
        let call = b[n - 1];
        if call.id.len() > 0 && call.name.len() > 0 {
            assert(whole_calls(a + b, a.len() + n) == (x + y).push(whole_calls(b, n).last()));
            assert((x + y).push(whole_calls(b, n).last()) == x + y.push(whole_calls(b, n).last()));
        }
    }
}

/// Every call that has an id and a name comes out as a call of its own, with its own id, name and
/// arguments, in the order in which the calls stand; what lacks one of the two does not come out.
pub proof fn each_call_comes_out_as_it_came(
    before: Seq<ChatCallView>,
    call: ChatCallView,
    after: Seq<ChatCallView>,
)
    ensures
        ({
            let all = before.push(call) + after;
            let first = whole_calls(before, before.len());
            let rest = whole_calls(after, after.len());
            let out = whole_calls(all, all.len());
            if call.id.len() > 0 && call.name.len() > 0 {
                &&& out.len() == first.len() + 1 + rest.len()
                &&& out.take(first.len() as int) == first
                &&& out.skip(first.len() as int + 1) == rest
                &&& out[first.len() as int].id == call.id
                &&& out[first.len() as int].name == call.name
                &&& call.arguments.len() > 0 ==> out[first.len() as int].arguments
                    == call.arguments
                &&& call.arguments.len() == 0 ==> out[first.len() as int].arguments == "{}"@
                &&& out[first.len() as int].kind == "function"@
            } else {
                out == first + rest
            }
        }),
        whole_calls(Seq::empty(), 0).len() == 0,
{
    let one = seq![call];
    let head = before.push(call);
    assert(head == before + one);
    lemma_whole_calls_add(before, one, 1);
    lemma_whole_calls_add(head, after, after.len());
    assert(whole_calls(one, 0) == Seq::<ToolCallView>::empty());
    let first = whole_calls(before, before.len());
    let rest = whole_calls(after, after.len());
    let out = whole_calls(head + after, (head + after).len());
    assert(out == first + whole_calls(one, 1) + rest);
    if call.id.len() > 0 && call.name.len() > 0 {
        assert(out.take(first.len() as int) == first);
        assert(out.skip(first.len() as int + 1) == rest);
    } else {
        assert(first + Seq::<ToolCallView>::empty() == first);
    }
}

/// The answer holds the text and the calls that came, as the assistant's.
pub proof fn an_answer_holds_what_came(text: Seq<char>, calls: Seq<ToolCallView>)
    ensures
        answer_of(text, calls).role == Role::Assistant,
        !answer_of(text, calls).hidden,
        text.len() > 0 ==> answer_of(text, calls).content == Some(text),
        text.len() == 0 ==> answer_of(text, calls).content is None,
        calls.len() > 0 ==> answer_of(text, calls).tool_calls == Some(calls),
        calls.len() == 0 ==> answer_of(text, calls).tool_calls is None,
        answer_of(text, calls).tool_call_id is None,
{
}

/// In a stream of responses, text that comes is added to the end of the answer and shown as it comes.
pub proof fn response_text_is_added_and_shown(s: ResponsesView, event: JsonView, delta: Seq<char>)
    requires
        event.field("type"@) == Some(JsonView::Text("response.output_text.delta"@)),
        event.field("delta"@) == Some(JsonView::Text(delta)),
    ensures
        after_event(s, event) matches Ok((next, shown)) && {
            &&& next.text == s.text + delta
            &&& next.calls == s.calls
            &&& delta.len() > 0 ==> shown == Some(delta)
            &&& delta.len() == 0 ==> shown is None
        },
{
    assert(s.text + Seq::<char>::empty() == s.text);
    if delta.len() == 0 {
        assert(delta == Seq::<char>::empty());
    }
}

/// Whether an item is a whole call of a tool.
pub open spec fn calls_tool(item: JsonView, id: Seq<char>, name: Seq<char>) -> bool {
    &&& item.field("type"@) == Some(JsonView::Text("function_call"@))
    &&& item.field("call_id"@) == Some(JsonView::Text(id))
    &&& item.field("name"@) == Some(JsonView::Text(name))
}

proof fn lemma_different_kinds()
    ensures
        "message"@ != "function_call"@,
        "response.output_item.done"@ != "response.output_text.delta"@,
        "response.completed"@ != "response.output_text.delta"@,
        "response.completed"@ != "response.output_item.done"@,
        "response.failed"@ != "response.output_text.delta"@,
        "response.failed"@ != "response.output_item.done"@,
        "response.failed"@ != "response.completed"@,
        "response.incomplete"@ != "response.output_text.delta"@,
        "response.incomplete"@ != "response.output_item.done"@,
        "response.incomplete"@ != "response.completed"@,
        "error"@ != "response.output_text.delta"@,
        "error"@ != "response.output_item.done"@,
        "error"@ != "response.completed"@,
{
    reveal_strlit("message");
    reveal_strlit("function_call");
    reveal_strlit("response.output_item.done");
    reveal_strlit("response.output_text.delta");
    reveal_strlit("response.completed");
    reveal_strlit("response.failed");
    reveal_strlit("response.incomplete");
    reveal_strlit("error");
    assert("message"@.len() == 7);
    assert("function_call"@.len() == 13);
    assert("response.output_item.done"@.len() == 25);
    assert("response.output_text.delta"@.len() == 26);
    assert("response.completed"@.len() == 18);
    assert("response.failed"@.len() == 15);
    assert("response.incomplete"@.len() == 19);
    assert("error"@.len() == 5);
}

/// In a stream of responses, a whole call becomes the last call of the answer, with its own id, name
/// and arguments, and the calls before it and the text stay as they were.
pub proof fn a_whole_call_is_added(
    s: ResponsesView,
    event: JsonView,
    item: JsonView,
    id: Seq<char>,
    name: Seq<char>,
)
    requires
        event.field("type"@) == Some(JsonView::Text("response.output_item.done"@)),
        event.field("item"@) == Some(item),
        calls_tool(item, id, name),
    ensures
        after_event(s, event) matches Ok((next, shown)) && {
            &&& next.text == s.text
            &&& shown is None
            &&& next.calls.len() == s.calls.len() + 1
            &&& forall|j: int|
                0 <= j < s.calls.len() ==> #[trigger] next.calls[j] == s.calls[j]
            &&& next.calls.last().id == id
            &&& next.calls.last().name == name
            &&& next.calls.last().kind == "function"@
            &&& item.field("arguments"@) matches Some(JsonView::Text(a)) ==> next.calls.last().arguments
                == a
            &&& item.field("arguments"@) is None ==> next.calls.last().arguments == "{}"@
        },
{
    lemma_different_kinds();
}

/// In a stream of responses, a whole message whose text the answer ends with already adds nothing;
/// any other adds its text to the end and shows it.
pub proof fn a_whole_message_is_not_repeated(s: ResponsesView, event: JsonView, item: JsonView, t: Seq<char>)
    requires
        event.field("type"@) == Some(JsonView::Text("response.output_item.done"@)),
        event.field("item"@) == Some(item),
        item.field("type"@) == Some(JsonView::Text("message"@)),
        item.field("content"@) matches Some(JsonView::Array(parts)) && parts.len() == 1
            && parts[0].field("text"@) == Some(JsonView::Text(t)),
    ensures
        after_event(s, event) matches Ok((next, shown)) && {
            &&& next.calls == s.calls
            &&& (t.len() <= s.text.len() && s.text.skip(s.text.len() - t.len()) == t) ==> next.text
                == s.text && shown is None
            &&& !(t.len() <= s.text.len() && s.text.skip(s.text.len() - t.len()) == t)
                ==> next.text == s.text + t && shown == Some(t)
        },
{
    lemma_different_kinds();
    let parts = item.field("content"@)->0->Array_0;
    assert(part_texts(parts, 0) == Seq::<char>::empty());
    assert(part_texts(parts, 1) == Seq::<char>::empty() + t);
    assert(Seq::<char>::empty() + t == t);
    assert(item_text(item) == t);
    if t.len() == 0 {
        assert(s.text.skip(s.text.len() - t.len()) == t);
    }
}

/// The parts of a message say one after the other what it says.
pub proof fn a_message_says_its_parts_in_a_row(parts: Seq<JsonView>, part: JsonView)
    ensures
        part_texts(parts.push(part), parts.len() + 1) == part_texts(parts, parts.len()) + said(
            part,
            "text"@,
        ),
        part_texts(Seq::empty(), 0).len() == 0,
{
    lemma_part_texts(parts, parts.push(part), parts.len());
}

proof fn lemma_part_texts(a: Seq<JsonView>, b: Seq<JsonView>, n: nat)
    requires
        n <= a.len(),
        n <= b.len(),
        forall|i: int| 0 <= i < n ==> a[i] == b[i],
    ensures
        part_texts(a, n) == part_texts(b, n),
    decreases n,
{
    if n > 0 {
        lemma_part_texts(a, b, (n - 1) as nat);
    }
}

/// A response that fails or breaks off ends the stream.
pub proof fn a_failed_response_ends_the_stream(
    s: ResponsesView,
    event: JsonView,
    response: JsonView,
    error: JsonView,
    said: Seq<char>,
)
    requires
        event.field("type"@) == Some(JsonView::Text("response.failed"@)) || event.field("type"@)
            == Some(JsonView::Text("response.incomplete"@)) || event.field("type"@) == Some(
            JsonView::Text("error"@),
        ),
    ensures
        after_event(s, event) matches Err(StreamFault::Failed(m)) && {
            &&& event.field("response"@) == Some(response) && response.field("error"@) == Some(
                error,
            ) && error.field("message"@) == Some(JsonView::Text(said)) ==> m == said
            &&& event.field("response"@) is None && event.field("error"@) == Some(error)
                && error.field("message"@) == Some(JsonView::Text(said)) ==> m == said
            &&& event.field("response"@) is None && event.field("error"@) is None && event.field(
                "message"@,
            ) == Some(JsonView::Text(said)) ==> m == said
        },
{
    lemma_different_kinds();
}

/// What the end of a stream of responses repeats counts only where nothing was streamed: then the
/// calls and messages in it make the answer.
pub proof fn the_end_counts_only_for_a_silent_stream(s: ResponsesView, items: Seq<JsonView>)
    requires
        s.completed_output == Some(items),
    ensures
        s.text.len() > 0 || s.calls.len() > 0 ==> at_end(s).text == s.text && at_end(s).calls
            == s.calls,
        s.text.len() == 0 && s.calls.len() == 0 && items.len() == 1 && items[0].field("type"@)
            == Some(JsonView::Text("function_call"@)) ==> at_end(s).text.len() == 0 && forall|
            id: Seq<char>,
            name: Seq<char>,
        | #[trigger]
            calls_tool(items[0], id, name) ==> at_end(s).calls.len() == 1 && at_end(s).calls[0].id
                == id && at_end(s).calls[0].name == name,
{
    lemma_different_kinds();
    if s.text.len() == 0 && s.calls.len() == 0 && items.len() == 1 {
        let base = ResponsesView { completed_output: None, ..s };
        assert(with_outputs(base, items, 0) == base);
        assert(with_outputs(base, items, 1) == with_output(base, items[0]).0);
    }
}

/// What the end of a stream says is kept for when it has ended.
pub proof fn the_end_of_a_response_is_kept(s: ResponsesView, event: JsonView, response: JsonView, items: Seq<JsonView>)
    requires
        event.field("type"@) == Some(JsonView::Text("response.completed"@)),
        event.field("response"@) == Some(response),
        response.field("output"@) == Some(JsonView::Array(items)),
    ensures
        after_event(s, event) matches Ok((next, shown)) && next.completed_output == Some(items)
            && next.text == s.text && next.calls == s.calls && shown is None,
{
    lemma_different_kinds();
}

proof fn lemma_all_whole(calls: Seq<ChatCallView>, n: nat)
    requires
        n <= calls.len(),
        forall|i: int|
            0 <= i < calls.len() ==> (#[trigger] calls[i]).id.len() > 0 && calls[i].name.len() > 0,
    ensures
        whole_calls(calls, n).len() == n,
        forall|i: int|
            0 <= i < n ==> (#[trigger] whole_calls(calls, n)[i]).id == calls[i].id && whole_calls(
                calls,
                n,
            )[i].name == calls[i].name && (calls[i].arguments.len() > 0 ==> whole_calls(
                calls,
                n,
            )[i].arguments == calls[i].arguments),
    decreases n,
{
    if n > 0 {
        lemma_all_whole(calls, (n - 1) as nat);
        assert(calls[n - 1].id.len() > 0);
    }
}

/// The answer of a stream has every call that came whole, each as it came and in its place.
pub proof fn an_answer_has_every_call(s: ChatCompletionStream, r: Result<Message, String>)
    requires
        call_ensures(ChatCompletionStream::finish, (s,), r),
        s@.calls.len() > 0,
        forall|i: int|
            0 <= i < s@.calls.len() ==> (#[trigger] s@.calls[i]).id.len() > 0
                && s@.calls[i].name.len() > 0,
    ensures
        r matches Ok(m) && m@.tool_calls matches Some(calls) && calls.len() == s@.calls.len()
            && forall|i: int|
            0 <= i < calls.len() ==> (#[trigger] calls[i]).id == s@.calls[i].id && calls[i].name
                == s@.calls[i].name && (s@.calls[i].arguments.len() > 0 ==> calls[i].arguments
                == s@.calls[i].arguments),
{
    lemma_all_whole(s@.calls, s@.calls.len());
}

/// Two calls that come side by side under the numbers zero and one are two calls in the answer.
pub proof fn two_calls_stay_two(
    first: JsonView,
    first_delta: JsonView,
    one: JsonView,
    second: JsonView,
    second_delta: JsonView,
    other: JsonView,
)
    requires
        adds(first, first_delta),
        first_delta.field("tool_calls"@) == Some(JsonView::Array(seq![one])),
        one.field("index"@) == Some(JsonView::Number(json::NumberView::Unsigned(0))),
        said(one, "id"@).len() > 0,
        said_of_function(one, "name"@).len() > 0,
        adds(second, second_delta),
        second_delta.field("tool_calls"@) == Some(JsonView::Array(seq![other])),
        other.field("index"@) == Some(JsonView::Number(json::NumberView::Unsigned(1))),
        said(other, "id"@).len() > 0,
        said_of_function(other, "name"@).len() > 0,
    ensures
        ({
            let begun = ChatView { text: Seq::empty(), calls: Seq::empty() };
            let a = after_chat_event(begun, first);
            &&& a is Ok
            &&& {
                let b = after_chat_event(a->Ok_0.0, second);
                &&& b is Ok
                &&& {
                    let calls = whole_calls(b->Ok_0.0.calls, b->Ok_0.0.calls.len());
                    &&& calls.len() == 2
                    &&& calls[0].id == said(one, "id"@)
                    &&& calls[0].name == said_of_function(one, "name"@)
                    &&& calls[1].id == said(other, "id"@)
                    &&& calls[1].name == said_of_function(other, "name"@)
                }
            }
        }),
{
    let begun = ChatView { text: Seq::empty(), calls: Seq::empty() };
    a_part_extends_its_own_call(begun, first, first_delta, one, 0);
    let a = after_chat_event(begun, first);
    let s = a->Ok_0.0;
    a_part_extends_its_own_call(s, second, second_delta, other, 1);
    let t = after_chat_event(s, second)->Ok_0.0;
    assert(t.calls.len() == 2);
    assert(t.calls[0] == s.calls[0]);
    lemma_all_whole(t.calls, 2);
}

/// A part of a call that comes in extends the call of its number, and no other; the text stays.
pub proof fn a_part_goes_to_its_own_call(
    s: &mut ChatCompletionStream,
    event: &Json,
    delta: JsonView,
    part: JsonView,
    n: u64,
    r: Result<Option<String>, StreamError>,
)
    requires
        call_ensures(ChatCompletionStream::push_event, (s, event), r),
        adds(event@, delta),
        delta.field("tool_calls"@) == Some(JsonView::Array(seq![part])),
        part.field("index"@) == Some(JsonView::Number(json::NumberView::Unsigned(n))) || (
        part.field("index"@) is None && n == 0),
        n < usize::MAX,
    ensures
        r is Ok,
        n < final(s)@.calls.len(),
        forall|j: int|
            0 <= j < old(s)@.calls.len() && j != n ==> #[trigger] final(s)@.calls[j]
                == old(s)@.calls[j],
        n < old(s)@.calls.len() ==> final(s)@.calls[n as int].arguments
            == old(s)@.calls[n as int].arguments + said_of_function(part, "arguments"@),
        n >= old(s)@.calls.len() ==> final(s)@.calls[n as int].arguments == said_of_function(
            part,
            "arguments"@,
        ) && final(s)@.calls[n as int].id == said(part, "id"@) && final(s)@.calls[n as int].name
            == said_of_function(part, "name"@),
{
    a_part_extends_its_own_call(old(s)@, event@, delta, part, n);
}

} // verus!
