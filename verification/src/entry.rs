//! The views of single entries, and the events that they raise.

use std::collections::HashMap;

use vstd::prelude::*;

use crate::thread::{AssistantMessage, AssistantMessageChunk, EntityId, ToolCallId};

verus! {

/// The handles by which a user interface toolkit refers to its views.
pub trait Handles {
    /// An editor for a message of the user.
    type MessageEditor;

    /// What such an editor reports.
    type MessageEditorEvent;

    /// An editor that shows a diff.
    type DiffEditor;

    /// A view of a terminal.
    type TerminalView;

    /// The scroll position of a view.
    type ScrollHandle;

    /// The focus of a view.
    type FocusHandle;
}

/// A place in a text.
#[derive(Clone, Copy, Debug, PartialEq, Eq, Structural)]
pub struct Point {
    pub row: u32,
    pub column: u32,
}

/// An event of the view of one entry.
pub struct EntryViewEvent<H: Handles> {
    pub entry_index: usize,
    pub view_event: ViewEvent<H>,
}

/// What happened in the view of an entry.
pub enum ViewEvent<H: Handles> {
    NewDiff(ToolCallId),
    NewTerminal(ToolCallId),
    TerminalMovedToBackground(ToolCallId),
    MessageEditorEvent(H::MessageEditor, H::MessageEditorEvent),
    OpenDiffLocation { path: String, position: Point, split: bool },
}

/// What a [`ViewEvent`] says, and of which entry.
pub enum EventView<H: Handles> {
    NewDiff(int, Seq<char>),
    NewTerminal(int, Seq<char>),
    TerminalMovedToBackground(int, Seq<char>),
    MessageEditorEvent(int, H::MessageEditor, H::MessageEditorEvent),
    OpenDiffLocation(int, Seq<char>, Point, bool),
}

impl<H: Handles> View for EntryViewEvent<H> {
    type V = EventView<H>;

    open spec fn view(&self) -> EventView<H> {
        let entry = self.entry_index as int;
        match self.view_event {
            ViewEvent::NewDiff(id) => EventView::NewDiff(entry, id@),
            ViewEvent::NewTerminal(id) => EventView::NewTerminal(entry, id@),
            ViewEvent::TerminalMovedToBackground(id) => EventView::TerminalMovedToBackground(
                entry,
                id@,
            ),
            ViewEvent::MessageEditorEvent(editor, event) => EventView::MessageEditorEvent(
                entry,
                editor,
                event,
            ),
            ViewEvent::OpenDiffLocation { path, position, split } => EventView::OpenDiffLocation(
                entry,
                path@,
                position,
                split,
            ),
        }
    }
}

/// The event by which a diff editor asks to open the file that it shows. It is raised only if both
/// the path of that file and the position in it are known.
pub fn open_diff_location<H: Handles>(
    entry_index: usize,
    path: Option<String>,
    position: Option<Point>,
    split: bool,
) -> (event: Option<EntryViewEvent<H>>)
    ensures
        match (path, position) {
            (Some(path), Some(position)) => event matches Some(event) && event@
                == EventView::<H>::OpenDiffLocation(entry_index as int, path@, position, split),
            _ => event is None,
        },
{
    match (path, position) {
        (Some(path), Some(position)) => Some(
            EntryViewEvent {
                entry_index,
                view_event: ViewEvent::OpenDiffLocation { path, position, split },
            },
        ),
        _ => None,
    }
}

/// A view among the content of a tool call.
pub enum ContentView<H: Handles> {
    DiffEditor(H::DiffEditor),
    Terminal(H::TerminalView),
}

/// What sort of view a tool call has for a terminal or a diff.
#[derive(Clone, Copy, Debug, PartialEq, Eq, Structural)]
pub enum ContentKind {
    DiffEditor,
    Terminal,
}

/// The view of an assistant message.
pub struct AssistantMessageEntry<H: Handles> {
    pub scroll_handles_by_chunk_index: HashMap<usize, H::ScrollHandle>,
    pub focus_handle: H::FocusHandle,
}

/// The view of a tool call. Its content is found by the terminal or the diff that it shows.
pub struct ToolCallEntry<H: Handles> {
    pub content: HashMap<EntityId, ContentView<H>>,
    pub focus_handle: H::FocusHandle,
}

/// The view of an entry.
pub enum Entry<H: Handles> {
    UserMessage(H::MessageEditor),
    AssistantMessage(AssistantMessageEntry<H>),
    ToolCall(ToolCallEntry<H>),
    CompletedPlan,
    ContextCompaction,
}

/// What an [`Entry`] holds.
#[verifier::ext_equal]
pub enum EntryView<H: Handles> {
    UserMessage(H::MessageEditor),
    AssistantMessage { scroll_handles: Map<usize, H::ScrollHandle>, focus: H::FocusHandle },
    ToolCall { content: Map<EntityId, ContentView<H>>, focus: H::FocusHandle },
    CompletedPlan,
    ContextCompaction,
}

impl<H: Handles> View for Entry<H> {
    type V = EntryView<H>;

    open spec fn view(&self) -> EntryView<H> {
        match self {
            Entry::UserMessage(editor) => EntryView::UserMessage(*editor),
            Entry::AssistantMessage(message) => EntryView::AssistantMessage {
                scroll_handles: message.scroll_handles_by_chunk_index@,
                focus: message.focus_handle,
            },
            Entry::ToolCall(call) => EntryView::ToolCall {
                content: call.content@,
                focus: call.focus_handle,
            },
            Entry::CompletedPlan => EntryView::CompletedPlan,
            Entry::ContextCompaction => EntryView::ContextCompaction,
        }
    }
}

/// What is to be focused to focus an entry: an editor, which has a focus of its own, or a focus
/// that the entry holds.
pub enum FocusTarget<'a, H: Handles> {
    Editor(&'a H::MessageEditor),
    Handle(&'a H::FocusHandle),
}

/// The place of the last chunk of a message, if that chunk is a thought.
pub open spec fn last_thought(chunks: Seq<AssistantMessageChunk>) -> Option<usize> {
    if chunks.len() > 0 && chunks.last() is Thought {
        Some((chunks.len() - 1) as usize)
    } else {
        None
    }
}

/// The place of the last chunk of a message, if that chunk is a thought.
pub fn last_thought_index(message: &AssistantMessage) -> (index: Option<usize>)
    ensures
        index == last_thought(message.chunks@),
{
    let count: usize = message.chunks.len();
    if count > 0 && message.chunks[count - 1] == AssistantMessageChunk::Thought {
        Some(count - 1)
    } else {
        None
    }
}

impl<H: Handles> AssistantMessageEntry<H> {
    /// The scroll handle of the chunk at `ix`.
    pub fn scroll_handle_for_chunk(&self, ix: usize) -> (handle: Option<&H::ScrollHandle>)
        ensures
            match handle {
                Some(handle) => self.scroll_handles_by_chunk_index@.contains_key(ix) && *handle
                    == self.scroll_handles_by_chunk_index@[ix],
                None => !self.scroll_handles_by_chunk_index@.contains_key(ix),
            },
    {
        broadcast use vstd::std_specs::hash::group_hash_axioms;

        self.scroll_handles_by_chunk_index.get(&ix)
    }

    /// Follows the message: if it ends with a thought, that chunk has a scroll handle from now on,
    /// `fresh` unless it had one already, and is to be scrolled to its bottom. Returns the place of
    /// that chunk.
    pub fn sync(&mut self, message: &AssistantMessage, fresh: H::ScrollHandle) -> (scrolled: Option<
        usize,
    >)
        ensures
            scrolled == last_thought(message.chunks@),
            final(self).focus_handle == old(self).focus_handle,
            final(self).scroll_handles_by_chunk_index@ == with_scroll_handle(
                old(self).scroll_handles_by_chunk_index@,
                last_thought(message.chunks@),
                fresh,
            ),
    {
        broadcast use vstd::std_specs::hash::group_hash_axioms;

        let scrolled = last_thought_index(message);
        if let Some(ix) = scrolled {
            if !self.scroll_handles_by_chunk_index.contains_key(&ix) {
                self.scroll_handles_by_chunk_index.insert(ix, fresh);
            }
        }
        scrolled
    }
}

/// Scroll handles, with `fresh` for the chunk at `ix` unless there is a handle for it.
pub open spec fn with_scroll_handle<S>(
    handles: Map<usize, S>,
    ix: Option<usize>,
    fresh: S,
) -> Map<usize, S> {
    match ix {
        Some(ix) => if handles.contains_key(ix) {
            handles
        } else {
            handles.insert(ix, fresh)
        },
        None => handles,
    }
}

impl<H: Handles> Entry<H> {
    /// What is to be focused to focus the entry.
    pub fn focus_handle(&self) -> (target: Option<FocusTarget<'_, H>>)
        ensures
            match self@ {
                EntryView::UserMessage(editor) => target == Some(FocusTarget::<H>::Editor(&editor)),
                EntryView::AssistantMessage { focus, .. } => target == Some(
                    FocusTarget::<H>::Handle(&focus),
                ),
                EntryView::ToolCall { focus, .. } => target == Some(
                    FocusTarget::<H>::Handle(&focus),
                ),
                EntryView::CompletedPlan | EntryView::ContextCompaction => target is None,
            },
    {
        match self {
            Entry::UserMessage(editor) => Some(FocusTarget::Editor(editor)),
            Entry::AssistantMessage(message) => Some(FocusTarget::Handle(&message.focus_handle)),
            Entry::ToolCall(call) => Some(FocusTarget::Handle(&call.focus_handle)),
            Entry::CompletedPlan | Entry::ContextCompaction => None,
        }
    }

    /// The editor of a message of the user.
    pub fn message_editor(&self) -> (editor: Option<&H::MessageEditor>)
        ensures
            match self@ {
                EntryView::UserMessage(own) => editor == Some(&own),
                _ => editor is None,
            },
    {
        match self {
            Entry::UserMessage(editor) => Some(editor),
            Entry::AssistantMessage(_)
            | Entry::ToolCall(_)
            | Entry::CompletedPlan
            | Entry::ContextCompaction => None,
        }
    }

    /// The views among the content of a tool call.
    fn content_map(&self) -> (content: Option<&HashMap<EntityId, ContentView<H>>>)
        ensures
            match self@ {
                EntryView::ToolCall { content: own, .. } => content matches Some(content)
                    && content@ == own,
                _ => content is None,
            },
    {
        match self {
            Entry::ToolCall(call) => Some(&call.content),
            _ => None,
        }
    }

    /// What sort of view a tool call has for a terminal or a diff.
    pub fn content_kind(&self, id: EntityId) -> (kind: Option<ContentKind>)
        ensures
            kind == match self@.content_at(id) {
                Some(ContentView::DiffEditor(_)) => Some(ContentKind::DiffEditor),
                Some(ContentView::Terminal(_)) => Some(ContentKind::Terminal),
                None => None,
            },
    {
        broadcast use vstd::std_specs::hash::group_hash_axioms;

        match self.content_map() {
            Some(content) => match content.get(&id) {
                Some(ContentView::DiffEditor(_)) => Some(ContentKind::DiffEditor),
                Some(ContentView::Terminal(_)) => Some(ContentKind::Terminal),
                None => None,
            },
            None => None,
        }
    }

    /// The editor that shows a diff of a tool call. What the entry holds for that diff must not be
    /// a terminal.
    pub fn editor_for_diff(&self, diff: EntityId) -> (editor: Option<&H::DiffEditor>)
        requires
            !(self@.content_at(diff) matches Some(ContentView::Terminal(_))),
        ensures
            match self@.content_at(diff) {
                Some(ContentView::DiffEditor(own)) => editor == Some(&own),
                _ => editor is None,
            },
    {
        broadcast use vstd::std_specs::hash::group_hash_axioms;

        match self.content_map() {
            Some(content) => match content.get(&diff) {
                Some(ContentView::DiffEditor(editor)) => Some(editor),
                _ => None,
            },
            None => None,
        }
    }

    /// The view of a terminal of a tool call. What the entry holds for that terminal must not be a
    /// diff editor.
    pub fn terminal(&self, terminal: EntityId) -> (view: Option<&H::TerminalView>)
        requires
            !(self@.content_at(terminal) matches Some(ContentView::DiffEditor(_))),
        ensures
            match self@.content_at(terminal) {
                Some(ContentView::Terminal(own)) => view == Some(&own),
                _ => view is None,
            },
    {
        broadcast use vstd::std_specs::hash::group_hash_axioms;

        match self.content_map() {
            Some(content) => match content.get(&terminal) {
                Some(ContentView::Terminal(view)) => Some(view),
                _ => None,
            },
            None => None,
        }
    }

    /// The scroll handle of a chunk of an assistant message.
    pub fn scroll_handle_for_assistant_message_chunk(&self, chunk_ix: usize) -> (handle: Option<
        &H::ScrollHandle,
    >)
        ensures
            match self@ {
                EntryView::AssistantMessage { scroll_handles, .. } => handle == (
                if scroll_handles.contains_key(chunk_ix) {
                    Some(&scroll_handles[chunk_ix])
                } else {
                    None
                }),
                _ => handle is None,
            },
    {
        match self {
            Entry::AssistantMessage(message) => message.scroll_handle_for_chunk(chunk_ix),
            Entry::UserMessage(_)
            | Entry::ToolCall(_)
            | Entry::CompletedPlan
            | Entry::ContextCompaction => None,
        }
    }

    /// Whether the entry is a tool call with some view among its content.
    pub fn has_content(&self) -> (has: bool)
        ensures
            has == (self@ matches EntryView::ToolCall { content, .. } && !content.is_empty()),
    {
        match self {
            Entry::ToolCall(call) => !call.content.is_empty(),
            Entry::UserMessage(_)
            | Entry::AssistantMessage(_)
            | Entry::CompletedPlan
            | Entry::ContextCompaction => false,
        }
    }
}

impl<H: Handles> EntryView<H> {
    /// The view that the content of a tool call has for a terminal or a diff.
    pub open spec fn content_at(self, id: EntityId) -> Option<ContentView<H>> {
        match self {
            EntryView::ToolCall { content, .. } => if content.contains_key(id) {
                Some(content[id])
            } else {
                None
            },
            _ => None,
        }
    }
}

/// The place of the last chunk is told exactly if that chunk is a thought.
pub proof fn last_thought_is_told(message: AssistantMessage, index: Option<usize>)
    requires
        call_ensures(last_thought_index, (&message,), index),
    ensures
        index is Some <==> message.chunks@.len() > 0 && message.chunks@[message.chunks@.len() - 1]
            == AssistantMessageChunk::Thought,
        index matches Some(ix) ==> ix == message.chunks@.len() - 1,
{
    assert(message.chunks.len() == message.chunks@.len());
}

} // verus!
