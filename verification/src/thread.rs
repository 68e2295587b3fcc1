//! What the view state reads of an agent thread: its entries, their tool calls and their chunks.

use vstd::prelude::*;

verus! {

/// Identifies an entity of the host application, such as a terminal or a diff.
pub type EntityId = u64;

/// Category of a tool call.
#[derive(Clone, Copy, Debug, PartialEq, Eq, Structural)]
pub enum ToolKind {
    Read,
    Edit,
    Delete,
    Move,
    Search,
    Execute,
    Think,
    Fetch,
    SwitchMode,
    Other,
}

/// Progress of a tool call.
#[derive(Clone, Copy, Debug, PartialEq, Eq, Structural)]
pub enum ToolCallStatus {
    Pending,
    WaitingForConfirmation,
    InProgress,
    Completed,
    Failed,
    Rejected,
    Canceled,
}

/// Whether the thread is producing output.
#[derive(Clone, Copy, Debug, PartialEq, Eq, Structural)]
pub enum ThreadStatus {
    Idle,
    Generating,
}

/// Unique identifier of a tool call within a thread.
#[derive(Debug, PartialEq, Eq, Hash)]
pub struct ToolCallId {
    text: String,
}

impl View for ToolCallId {
    type V = Seq<char>;

    closed spec fn view(&self) -> Seq<char> {
        self.text@
    }
}

impl ToolCallId {
    /// The identifier that reads `text`.
    pub fn new(text: &str) -> (id: Self)
        ensures
            id@ == text@,
    {
        ToolCallId { text: text.to_owned() }
    }

    /// The text of the identifier.
    pub fn as_str(&self) -> (text: &str)
        ensures
            text@ == self@,
    {
        self.text.as_str()
    }

    /// Whether two identifiers read the same.
    pub fn same_as(&self, other: &Self) -> (same: bool)
        ensures
            same == (self@ == other@),
    {
        self.text == other.text
    }
}

impl Clone for ToolCallId {
    fn clone(&self) -> (copy: Self)
        ensures
            copy@ == self@,
    {
        ToolCallId { text: self.text.clone() }
    }
}

/// A terminal that a tool call shows, and whether it has finished with some output.
#[derive(Clone, Copy, Debug)]
pub struct Terminal {
    pub id: EntityId,
    pub has_output: bool,
}

/// A tool call of the thread.
#[derive(Debug)]
pub struct ToolCall {
    pub id: ToolCallId,
    pub kind: ToolKind,
    pub status: ToolCallStatus,
    /// Whether the call runs a subagent.
    pub subagent: bool,
    /// The terminals among its content, in order.
    pub terminals: Vec<Terminal>,
    /// The diffs among its content, in order.
    pub diffs: Vec<EntityId>,
}

impl ToolCall {
    /// Whether the call runs a subagent.
    pub fn is_subagent(&self) -> (subagent: bool)
        ensures
            subagent == self.subagent,
    {
        self.subagent
    }
}

/// A piece of an assistant message: text addressed to the user, or a thought.
#[derive(Clone, Copy, Debug, PartialEq, Eq, Structural)]
pub enum AssistantMessageChunk {
    Message,
    Thought,
}

/// A message of the assistant.
#[derive(Debug)]
pub struct AssistantMessage {
    pub chunks: Vec<AssistantMessageChunk>,
}

/// A message of the user.
#[derive(Clone, Copy, Debug)]
pub struct UserMessage {
    /// Whether the client gave the message an identifier.
    pub has_client_id: bool,
}

/// One entry of an agent thread.
#[derive(Debug)]
pub enum AgentThreadEntry {
    UserMessage(UserMessage),
    AssistantMessage(AssistantMessage),
    ToolCall(ToolCall),
    CompletedPlan,
    ContextCompaction,
}

/// An identifier reads what it was made of, and two of them are the same exactly if they read the
/// same.
pub proof fn identifiers_are_their_texts(
    text: &str,
    id: ToolCallId,
    read: &str,
    other: ToolCallId,
    other_read: &str,
    same: bool,
)
    requires
        call_ensures(ToolCallId::new, (text,), id),
        call_ensures(ToolCallId::as_str, (&id,), read),
        call_ensures(ToolCallId::as_str, (&other,), other_read),
        call_ensures(ToolCallId::same_as, (&id, &other), same),
    ensures
        read@ == text@,
        same == (read@ == other_read@),
{
}

} // verus!
