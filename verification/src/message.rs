//! Messages of a conversation.
use vstd::prelude::*;

verus! {

/// Who a message is from.
#[derive(Clone, Copy, Debug, PartialEq, Eq, Structural)]
pub enum Role {
    System,
    User,
    Assistant,
    Tool,
}

/// The function a tool call names, with its arguments as JSON text.
#[derive(Debug)]
pub struct FunctionCall {
    pub name: String,
    pub arguments: String,
}

/// A tool call of the model.
#[derive(Debug)]
pub struct ToolCall {
    pub id: String,
    pub kind: String,
    pub function: FunctionCall,
}

/// A message of a conversation.
#[derive(Debug)]
pub struct Message {
    pub role: Role,
    pub sequence: Option<u64>,
    pub created_at: Option<i128>,
    pub content: Option<String>,
    pub tool_calls: Option<Vec<ToolCall>>,
    pub tool_call_id: Option<String>,
    pub hidden: bool,
}

/// What a tool call says.
#[verifier::ext_equal]
pub struct ToolCallView {
    pub id: Seq<char>,
    pub kind: Seq<char>,
    pub name: Seq<char>,
    pub arguments: Seq<char>,
}

/// What a message says.
#[verifier::ext_equal]
pub struct MessageView {
    pub role: Role,
    pub sequence: Option<u64>,
    pub created_at: Option<i128>,
    pub content: Option<Seq<char>>,
    pub tool_calls: Option<Seq<ToolCallView>>,
    pub tool_call_id: Option<Seq<char>>,
    pub hidden: bool,
}

/// The characters of an optional text.
pub open spec fn opt_view(s: Option<String>) -> Option<Seq<char>> {
    match s {
        Some(s) => Some(s@),
        None => None,
    }
}

impl View for ToolCall {
    type V = ToolCallView;

    open spec fn view(&self) -> ToolCallView {
        ToolCallView {
            id: self.id@,
            kind: self.kind@,
            name: self.function.name@,
            arguments: self.function.arguments@,
        }
    }
}

/// What a list of tool calls says.
pub open spec fn call_views(calls: Seq<ToolCall>) -> Seq<ToolCallView> {
    Seq::new(calls.len(), |i: int| calls[i]@)
}

impl View for Message {
    type V = MessageView;

    open spec fn view(&self) -> MessageView {
        MessageView {
            role: self.role,
            sequence: self.sequence,
            created_at: self.created_at,
            content: opt_view(self.content),
            tool_calls: match self.tool_calls {
                Some(calls) => Some(call_views(calls@)),
                None => None,
            },
            tool_call_id: opt_view(self.tool_call_id),
            hidden: self.hidden,
        }
    }
}

/// What a list of messages says.
pub open spec fn message_views(messages: Seq<Message>) -> Seq<MessageView> {
    Seq::new(messages.len(), |i: int| messages[i]@)
}

/// A copy of an optional text.
pub fn copy_text(s: &Option<String>) -> (r: Option<String>)
    ensures
        r == *s,
{
    match s {
        Some(t) => Some(t.clone()),
        None => None,
    }
}

impl Clone for ToolCall {
    fn clone(&self) -> (r: Self)
        ensures
            r@ == self@,
    {
        ToolCall {
            id: self.id.clone(),
            kind: self.kind.clone(),
            function: FunctionCall {
                name: self.function.name.clone(),
                arguments: self.function.arguments.clone(),
            },
        }
    }
}

fn copy_calls(calls: &Vec<ToolCall>) -> (r: Vec<ToolCall>)
    ensures
        call_views(r@) == call_views(calls@),
{
    let mut r: Vec<ToolCall> = Vec::new();
    let mut i: usize = 0;
    while i < calls.len()
        invariant
            i <= calls@.len(),
            r@.len() == i,
            forall|j: int| 0 <= j < i ==> (#[trigger] r@[j])@ == calls@[j]@,
        decreases calls@.len() - i,
    {
        r.push(calls[i].clone());
        i += 1;
    }
    r
}

impl Clone for Message {
    fn clone(&self) -> (r: Self)
        ensures
            r@ == self@,
    {
        Message {
            role: self.role,
            sequence: self.sequence,
            created_at: self.created_at,
            content: copy_text(&self.content),
            tool_calls: match &self.tool_calls {
                Some(calls) => Some(copy_calls(calls)),
                None => None,
            },
            tool_call_id: copy_text(&self.tool_call_id),
            hidden: self.hidden,
        }
    }
}

/// Whether a message is one that the user wrote and sees.
pub open spec fn is_visible_user(m: MessageView) -> bool {
    m.role == Role::User && !m.hidden
}

/// A text that the user wrote at `at`.
pub open spec fn user_text(content: Seq<char>, at: i128) -> MessageView {
    MessageView {
        role: Role::User,
        sequence: None,
        created_at: Some(at),
        content: Some(content),
        tool_calls: None,
        tool_call_id: None,
        hidden: false,
    }
}

impl Message {
    /// A visible text message written at `created_at`.
    pub fn text_at(role: Role, content: &str, created_at: i128) -> (m: Message)
        ensures
            m@ == (MessageView {
                role,
                sequence: None,
                created_at: Some(created_at),
                content: Some(content@),
                tool_calls: None,
                tool_call_id: None,
                hidden: false,
            }),
    {
        Message {
            role,
            sequence: None,
            created_at: Some(created_at),
            content: Some(content.to_owned()),
            tool_calls: None,
            tool_call_id: None,
            hidden: false,
        }
    }

    /// A hidden text message written at `created_at`.
    pub fn hidden_text_at(role: Role, content: &str, created_at: i128) -> (m: Message)
        ensures
            m@ == (MessageView {
                role,
                sequence: None,
                created_at: Some(created_at),
                content: Some(content@),
                tool_calls: None,
                tool_call_id: None,
                hidden: true,
            }),
    {
        let m = Message::text_at(role, content, created_at);
        Message { hidden: true, ..m }
    }

    /// A visible text message written now.
    pub fn text(role: Role, content: &str) -> (m: Message)
        ensures
            m@.created_at is Some,
            m@ == (MessageView {
                role,
                sequence: None,
                created_at: m@.created_at,
                content: Some(content@),
                tool_calls: None,
                tool_call_id: None,
                hidden: false,
            }),
    {
        Message::text_at(role, content, crate::clock::now())
    }

    /// A hidden text message written now.
    pub fn hidden_text(role: Role, content: &str) -> (m: Message)
        ensures
            m@.created_at is Some,
            m@ == (MessageView {
                role,
                sequence: None,
                created_at: m@.created_at,
                content: Some(content@),
                tool_calls: None,
                tool_call_id: None,
                hidden: true,
            }),
    {
        Message::hidden_text_at(role, content, crate::clock::now())
    }

    /// Whether the message is one that the user wrote and sees.
    pub fn visible_user(&self) -> (r: bool)
        ensures
            r == is_visible_user(self@),
    {
        self.role == Role::User && !self.hidden
    }
}

/// Whether a flag is off, so that it may be left out of a stored message.
pub fn is_false(value: &bool) -> (r: bool)
    ensures
        r == !*value,
{
    !*value
}

/// What is written is a message of its role with that text, seen unless it is hidden.
pub proof fn a_text_becomes_a_message(
    role: Role,
    content: &str,
    at: i128,
    seen: Message,
    hidden: Message,
)
    requires
        call_ensures(Message::text_at, (role, content, at), seen),
        call_ensures(Message::hidden_text_at, (role, content, at), hidden),
    ensures
        seen@.role == role && hidden@.role == role,
        seen@.content == Some(content@) && hidden@.content == Some(content@),
        seen@.created_at == Some(at) && hidden@.created_at == Some(at),
        !seen@.hidden && hidden@.hidden,
        is_visible_user(seen@) <==> role == Role::User,
        !is_visible_user(hidden@),
        seen@.tool_calls is None && seen@.tool_call_id is None,
{
}

} // verus!
