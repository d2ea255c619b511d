//! Conversation messages and their content items.
use vstd::prelude::*;

verus! {

/// Who authored a message.
#[derive(PartialEq, Eq, Structural, Clone, Copy, Debug)]
pub enum Role {
    User,
    Assistant,
}

/// A call of a named tool; the arguments are JSON text.
#[derive(Debug)]
pub struct ToolCall {
    pub name: String,
    pub arguments: String,
}

impl Clone for ToolCall {
    fn clone(&self) -> (r: Self)
        ensures
            r == *self,
    {
        ToolCall { name: self.name.clone(), arguments: self.arguments.clone() }
    }
}

/// Failure of a tool call, as it is recorded in the transcript.
#[derive(Debug)]
pub enum ToolError {
    InvalidParameters(String),
    ExecutionError(String),
    SchemaError(String),
    NotFound(String),
}

impl Clone for ToolError {
    fn clone(&self) -> (r: Self)
        ensures
            r == *self,
    {
        match self {
            ToolError::InvalidParameters(s) => ToolError::InvalidParameters(s.clone()),
            ToolError::ExecutionError(s) => ToolError::ExecutionError(s.clone()),
            ToolError::SchemaError(s) => ToolError::SchemaError(s.clone()),
            ToolError::NotFound(s) => ToolError::NotFound(s.clone()),
        }
    }
}

/// One content item of a message.
#[derive(Debug)]
#[allow(inconsistent_fields)]
pub enum Content {
    Text(String),
    /// A tool call proposed by the model; the call itself may have failed to parse.
    ToolRequest { id: String, call: Result<ToolCall, ToolError> },
    /// The outcome of the tool call with the same id.
    ToolResponse { id: String, result: Result<String, ToolError> },
    /// A request for a human decision on the tool call with the same id.
    ToolConfirmationRequest { id: String, call: ToolCall },
}

fn clone_call_result(r: &Result<ToolCall, ToolError>) -> (c: Result<ToolCall, ToolError>)
    ensures
        c == *r,
{
    match r {
        Ok(call) => Ok(call.clone()),
        Err(e) => Err(e.clone()),
    }
}

impl Clone for Content {
    fn clone(&self) -> (r: Self)
        ensures
            r == *self,
    {
        match self {
            Content::Text(s) => Content::Text(s.clone()),
            Content::ToolRequest { id, call } => Content::ToolRequest {
                id: id.clone(),
                call: clone_call_result(call),
            },
            Content::ToolResponse { id, result } => Content::ToolResponse {
                id: id.clone(),
                result: match result {
                    Ok(v) => Ok(v.clone()),
                    Err(e) => Err(e.clone()),
                },
            },
            Content::ToolConfirmationRequest { id, call } => Content::ToolConfirmationRequest {
                id: id.clone(),
                call: call.clone(),
            },
        }
    }
}

/// A message of the transcript: a role and an ordered list of content items.
#[derive(Debug)]
pub struct Message {
    pub role: Role,
    pub content: Vec<Content>,
}

/// Two messages with the same role and the same content items.
pub open spec fn same_message(a: Message, b: Message) -> bool {
    a.role == b.role && a.content@ == b.content@
}

impl Clone for Message {
    fn clone(&self) -> (r: Self)
        ensures
            same_message(r, *self),
    {
        let content = self.content.clone();
        assert(content@ =~= self.content@);
        Message { role: self.role, content }
    }
}

} // verus!

verus! {

/// The content item is a text item holding `s`.
pub open spec fn is_text(c: Content, s: Seq<char>) -> bool {
    c matches Content::Text(t) && t@ == s
}

/// The message has the given role and one text item holding `s`.
pub open spec fn is_text_message(m: Message, role: Role, s: Seq<char>) -> bool {
    &&& m.role == role
    &&& m.content@.len() == 1
    &&& is_text(m.content@[0], s)
}

/// The tool requests among the items, in order.
pub open spec fn requests_of(c: Seq<Content>) -> Seq<Content>
    decreases c.len(),
{
    if c.len() == 0 {
        Seq::empty()
    } else if c.last() is ToolRequest {
        requests_of(c.drop_last()).push(c.last())
    } else {
        requests_of(c.drop_last())
    }
}

/// The id that a tool item carries (empty for text).
pub open spec fn item_id(c: Content) -> Seq<char> {
    match c {
        Content::Text(_) => Seq::empty(),
        Content::ToolRequest { id, .. } => id@,
        Content::ToolResponse { id, .. } => id@,
        Content::ToolConfirmationRequest { id, .. } => id@,
    }
}

/// Ids of the tool requests among the items, in order.
pub open spec fn request_ids(c: Seq<Content>) -> Seq<Seq<char>> {
    requests_of(c).map_values(|x: Content| item_id(x))
}

/// The tool requests among the items are no more than the items, and each
/// of them is a tool request.
pub proof fn lemma_requests_of_len(c: Seq<Content>)
    ensures
        requests_of(c).len() <= c.len(),
        forall|k: int| 0 <= k < requests_of(c).len() ==> (#[trigger] requests_of(c)[k]) is ToolRequest,
    decreases c.len(),
{
    if c.len() > 0 {
        lemma_requests_of_len(c.drop_last());
    }
}

/// The name that a note gives to the last tool request among the items: the
/// tool's name where the call parsed, else "tool".
pub open spec fn last_request_name(c: Seq<Content>) -> Seq<char>
    decreases c.len(),
{
    if c.len() == 0 {
        "tool"@
    } else {
        match c.last() {
            Content::ToolRequest { call: Ok(call), .. } => call.name@,
            Content::ToolRequest { call: Err(_), .. } => "tool"@,
            _ => last_request_name(c.drop_last()),
        }
    }
}

impl Message {
    /// A message from the user, with no content yet.
    pub fn user() -> (m: Message)
        ensures
            m.role == Role::User,
            m.content@ == Seq::<Content>::empty(),
    {
        Message { role: Role::User, content: Vec::new() }
    }

    /// A message from the assistant, with no content yet.
    pub fn assistant() -> (m: Message)
        ensures
            m.role == Role::Assistant,
            m.content@ == Seq::<Content>::empty(),
    {
        Message { role: Role::Assistant, content: Vec::new() }
    }

    /// The message with one more text item at its end.
    pub fn with_text(self, text: &str) -> (m: Message)
        ensures
            m.role == self.role,
            m.content@.len() == self.content@.len() + 1,
            m.content@.drop_last() == self.content@,
            is_text(m.content@.last(), text@),
    {
        let mut m = self;
        m.content.push(Content::Text(text.to_owned()));
        proof {
            assert(m.content@.drop_last() =~= self.content@);
        }
        m
    }

    /// The message with one more content item at its end.
    pub fn with_content(self, item: Content) -> (m: Message)
        ensures
            m.role == self.role,
            m.content@ == self.content@.push(item),
    {
        let mut m = self;
        m.content.push(item);
        m
    }
}

} // verus!
