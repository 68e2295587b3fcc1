//! Keeping the views of entries in step with the thread.

use entry_view_state::entry::{
    open_diff_location, AssistantMessageEntry, ContentKind, Entry, EntryViewEvent, FocusTarget,
    Handles, Point, ViewEvent,
};
use entry_view_state::state::EntryViewState;
use entry_view_state::sync::{EditorAccess, MissingViews, NewViews, SyncEffect, ThreadInfo};
use entry_view_state::thread::{
    AgentThreadEntry, AssistantMessage, AssistantMessageChunk, EntityId, Terminal, ToolCall,
    ToolCallId, ToolCallStatus, ToolKind, UserMessage,
};

#[derive(Clone, Debug, PartialEq)]
enum Row {
    Deleted,
    Added,
}

/// Stands for an editor that shows a diff.
#[derive(Clone, Debug, PartialEq)]
struct DiffEditor {
    text: String,
    rows: Vec<Row>,
}

fn diff_editor(old_text: &str, new_text: &str) -> DiffEditor {
    DiffEditor {
        text: format!("{}\n{}", old_text, new_text),
        rows: vec![Row::Deleted, Row::Added],
    }
}

struct Ui;

impl Handles for Ui {
    type MessageEditor = &'static str;
    type MessageEditorEvent = u32;
    type DiffEditor = DiffEditor;
    type TerminalView = u32;
    type ScrollHandle = u32;
    type FocusHandle = u32;
}

const INFO: ThreadInfo = ThreadInfo { supports_truncate: true, is_subagent: false };

fn call_entry(
    status: ToolCallStatus,
    terminals: Vec<(EntityId, bool)>,
    diffs: Vec<EntityId>,
) -> AgentThreadEntry {
    AgentThreadEntry::ToolCall(ToolCall {
        id: ToolCallId::new("tool"),
        kind: ToolKind::Other,
        status,
        subagent: false,
        terminals: terminals
            .into_iter()
            .map(|(id, has_output)| Terminal { id, has_output })
            .collect(),
        diffs,
    })
}

fn message(chunks: Vec<AssistantMessageChunk>) -> AgentThreadEntry {
    AgentThreadEntry::AssistantMessage(AssistantMessage { chunks })
}

fn user(has_client_id: bool) -> AgentThreadEntry {
    AgentThreadEntry::UserMessage(UserMessage { has_client_id })
}

fn no_views(handle: u32) -> NewViews<Ui> {
    NewViews {
        message_editor: None,
        terminals: vec![],
        diff_editors: vec![],
        focus_handle: handle,
        scroll_handle: handle,
    }
}

/// Creates a view for everything that is missing. The view of a terminal is its identifier times
/// ten, and the editor of a diff shows its identifier.
fn create(missing: &MissingViews, handle: u32) -> NewViews<Ui> {
    NewViews {
        message_editor: missing.message_editor.map(|access| match access {
            EditorAccess::Editable => "editable",
            EditorAccess::ReadOnly => "read-only",
        }),
        terminals: missing.terminals.iter().map(|id| *id as u32 * 10).collect(),
        diff_editors: missing.diffs.iter().map(|id| diff_editor("", &id.to_string())).collect(),
        focus_handle: handle,
        scroll_handle: handle,
    }
}

fn sync(
    state: &mut EntryViewState<Ui>,
    index: usize,
    entry: &AgentThreadEntry,
    handle: u32,
) -> Vec<String> {
    let missing = state.missing_views(index, Some(entry), INFO);
    let views = create(&missing, handle);
    let effects = state.sync_entry(index, Some(entry), false, views);
    effects.iter().map(describe).collect()
}

fn describe(effect: &SyncEffect<Ui>) -> String {
    match effect {
        SyncEffect::SetMessage => format!("set message"),
        SyncEffect::ScrollToBottom(chunk_ix) => format!("scroll {}", chunk_ix),
        SyncEffect::Emit(event) => describe_event(event),
    }
}

fn describe_event(event: &EntryViewEvent<Ui>) -> String {
    let index = event.entry_index;
    match &event.view_event {
        ViewEvent::NewDiff(id) => format!("{}: diff {}", index, id.as_str()),
        ViewEvent::NewTerminal(id) => format!("{}: terminal {}", index, id.as_str()),
        ViewEvent::TerminalMovedToBackground(id) => format!("{}: moved {}", index, id.as_str()),
        ViewEvent::MessageEditorEvent(editor, event) => format!("{}: {} {}", index, editor, event),
        ViewEvent::OpenDiffLocation { path, position, split } => {
            format!("{}: {}:{}:{} {}", index, path, position.row, position.column, split)
        }
    }
}

#[test]
fn test_diff_sync() {
    // A tool call "tool" in progress, with one diff of "/project/hello.txt".
    let diff: EntityId = 1;
    let entry = call_entry(ToolCallStatus::InProgress, vec![], vec![diff]);
    let mut state: EntryViewState<Ui> = EntryViewState::new();

    let missing = state.missing_views(0, Some(&entry), INFO);
    assert_eq!(missing.diffs, vec![diff]);
    let mut views = no_views(0);
    views.diff_editors = vec![diff_editor("hi world", "hello world")];
    let effects = state.sync_entry(0, Some(&entry), false, views);
    assert_eq!(effects.iter().map(describe).collect::<Vec<String>>(), vec!["0: diff tool"]);

    let diff_editor = state.entry(0).unwrap().editor_for_diff(diff).unwrap();
    assert_eq!(diff_editor.text, "hi world\nhello world");
    assert!(matches!(diff_editor.rows.as_slice(), [Row::Deleted, Row::Added]));
}

#[test]
fn syncing_beyond_the_thread_does_nothing() {
    let mut state: EntryViewState<Ui> = EntryViewState::new();
    let missing = state.missing_views(7, None, INFO);
    assert_eq!(missing.message_editor, None);
    assert!(missing.terminals.is_empty());
    assert!(missing.diffs.is_empty());
    assert!(state.sync_entry(7, None, false, no_views(0)).is_empty());
    assert!(state.entry(0).is_none());
}

#[test]
fn messages_can_be_edited_only_if_the_thread_can_be_rewound_to_them() {
    let state: EntryViewState<Ui> = EntryViewState::new();
    for supports_truncate in [false, true] {
        for has_client_id in [false, true] {
            for is_subagent in [false, true] {
                let info = ThreadInfo { supports_truncate, is_subagent };
                let missing = state.missing_views(0, Some(&user(has_client_id)), info);
                let expected = if supports_truncate && has_client_id && !is_subagent {
                    EditorAccess::Editable
                } else {
                    EditorAccess::ReadOnly
                };
                assert_eq!(missing.message_editor, Some(expected));
            }
        }
    }
}

#[test]
fn a_message_is_set_again_unless_it_is_being_edited() {
    let mut state: EntryViewState<Ui> = EntryViewState::new();
    assert!(sync(&mut state, 0, &user(true), 0).is_empty());
    assert_eq!(state.entry(0).unwrap().message_editor(), Some(&"editable"));
    assert_eq!(state.missing_views(0, Some(&user(false)), INFO).message_editor, None);
    assert_eq!(sync(&mut state, 0, &user(false), 0), vec!["set message"]);
    assert!(state.sync_entry(0, Some(&user(true)), true, no_views(0)).is_empty());
    assert_eq!(state.entry(0).unwrap().message_editor(), Some(&"editable"));
}

#[test]
fn terminals_and_diffs_get_their_views_once() {
    let mut state: EntryViewState<Ui> = EntryViewState::new();
    let entry = call_entry(
        ToolCallStatus::InProgress,
        vec![(3, false), (4, true), (3, false)],
        vec![5, 6, 5],
    );
    let missing = state.missing_views(0, Some(&entry), INFO);
    assert_eq!(missing.terminals, vec![3, 4]);
    assert_eq!(missing.diffs, vec![5, 6]);
    assert_eq!(
        sync(&mut state, 0, &entry, 1),
        vec!["0: terminal tool", "0: terminal tool", "0: diff tool", "0: diff tool"]
    );
    let view = state.entry(0).unwrap();
    assert!(view.has_content());
    assert_eq!(view.terminal(3), Some(&30));
    assert_eq!(view.terminal(4), Some(&40));
    assert_eq!(view.terminal(9), None);
    assert_eq!(view.editor_for_diff(5), Some(&diff_editor("", "5")));
    assert_eq!(view.editor_for_diff(6), Some(&diff_editor("", "6")));
    assert_eq!(view.editor_for_diff(9), None);
    assert_eq!(view.content_kind(3), Some(ContentKind::Terminal));
    assert_eq!(view.content_kind(5), Some(ContentKind::DiffEditor));
    assert_eq!(view.content_kind(9), None);

    // Nothing is missing any more, and nothing is announced twice.
    let missing = state.missing_views(0, Some(&entry), INFO);
    assert!(missing.terminals.is_empty());
    assert!(missing.diffs.is_empty());
    assert!(sync(&mut state, 0, &entry, 2).is_empty());

    // What is new is added to what there was.
    let grown = call_entry(ToolCallStatus::InProgress, vec![(3, false), (7, false)], vec![5, 8]);
    assert_eq!(sync(&mut state, 0, &grown, 3), vec!["0: terminal tool", "0: diff tool"]);
    let view = state.entry(0).unwrap();
    assert_eq!(view.terminal(3), Some(&30));
    assert_eq!(view.terminal(4), Some(&40));
    assert_eq!(view.terminal(7), Some(&70));
    assert_eq!(view.editor_for_diff(8), Some(&diff_editor("", "8")));
    assert!(matches!(view.focus_handle(), Some(FocusTarget::Handle(1))));
}

#[test]
fn running_terminals_of_a_completed_call_move_to_the_background() {
    let mut state: EntryViewState<Ui> = EntryViewState::new();
    let running = call_entry(ToolCallStatus::InProgress, vec![(3, false), (4, false)], vec![]);
    sync(&mut state, 0, &running, 0);
    assert!(sync(&mut state, 0, &running, 0).is_empty());
    let completed = call_entry(ToolCallStatus::Completed, vec![(3, false), (4, true)], vec![]);
    assert_eq!(sync(&mut state, 0, &completed, 0), vec!["0: moved tool"]);
    // A terminal that is new is announced, and only if it is listed again it is moved.
    let more = call_entry(ToolCallStatus::Completed, vec![(4, true), (5, false), (5, false)], vec![]);
    assert_eq!(sync(&mut state, 0, &more, 0), vec!["0: terminal tool", "0: moved tool"]);
}

#[test]
fn the_last_thought_of_a_message_is_scrolled_to_its_bottom() {
    let mut state: EntryViewState<Ui> = EntryViewState::new();
    let first = message(vec![AssistantMessageChunk::Message, AssistantMessageChunk::Thought]);
    assert_eq!(sync(&mut state, 0, &first, 11), vec!["scroll 1"]);
    assert_eq!(sync(&mut state, 0, &first, 12), vec!["scroll 1"]);
    let second = message(vec![
        AssistantMessageChunk::Message,
        AssistantMessageChunk::Thought,
        AssistantMessageChunk::Thought,
    ]);
    assert_eq!(sync(&mut state, 0, &second, 13), vec!["scroll 2"]);
    let done = message(vec![AssistantMessageChunk::Thought, AssistantMessageChunk::Message]);
    assert!(sync(&mut state, 0, &done, 14).is_empty());
    assert!(sync(&mut state, 0, &message(vec![]), 15).is_empty());
    let view = state.entry(0).unwrap();
    assert_eq!(view.scroll_handle_for_assistant_message_chunk(0), None);
    assert_eq!(view.scroll_handle_for_assistant_message_chunk(1), Some(&11));
    assert_eq!(view.scroll_handle_for_assistant_message_chunk(2), Some(&13));
    assert!(matches!(view.focus_handle(), Some(FocusTarget::Handle(11))));
}

#[test]
fn message_views_hold_scroll_handles_by_chunk() {
    let mut view: AssistantMessageEntry<Ui> = AssistantMessageEntry {
        scroll_handles_by_chunk_index: std::collections::HashMap::new(),
        focus_handle: 0,
    };
    let thought = AssistantMessage { chunks: vec![AssistantMessageChunk::Thought] };
    let text = AssistantMessage { chunks: vec![AssistantMessageChunk::Message] };
    assert_eq!(view.sync(&text, 1), None);
    assert_eq!(view.scroll_handle_for_chunk(0), None);
    assert_eq!(view.sync(&thought, 2), Some(0));
    assert_eq!(view.sync(&thought, 3), Some(0));
    assert_eq!(view.scroll_handle_for_chunk(0), Some(&2));
    assert_eq!(view.scroll_handle_for_chunk(1), None);
}

#[test]
fn views_of_another_sort_are_replaced() {
    let mut state: EntryViewState<Ui> = EntryViewState::new();
    let call = call_entry(ToolCallStatus::Completed, vec![(3, true)], vec![]);
    sync(&mut state, 0, &AgentThreadEntry::CompletedPlan, 1);
    sync(&mut state, 1, &AgentThreadEntry::ContextCompaction, 1);
    assert!(matches!(state.entry(0), Some(Entry::CompletedPlan)));
    assert!(matches!(state.entry(1), Some(Entry::ContextCompaction)));
    assert!(state.entry(2).is_none());
    assert!(state.entry(0).unwrap().focus_handle().is_none());
    assert!(state.entry(1).unwrap().focus_handle().is_none());
    assert!(!state.entry(0).unwrap().has_content());
    assert_eq!(state.entry(0).unwrap().message_editor(), None);
    assert_eq!(state.entry(0).unwrap().editor_for_diff(3), None);

    assert_eq!(sync(&mut state, 0, &call, 2), vec!["0: terminal tool"]);
    assert!(matches!(state.entry(0), Some(Entry::ToolCall(_))));
    assert!(matches!(state.entry(1), Some(Entry::ContextCompaction)));
    sync(&mut state, 0, &user(true), 3);
    let view = state.entry(0).unwrap();
    assert!(matches!(view.focus_handle(), Some(FocusTarget::Editor(&"editable"))));
    assert_eq!(view.terminal(3), None);
    assert_eq!(view.content_kind(3), None);
    assert_eq!(view.scroll_handle_for_assistant_message_chunk(0), None);
    sync(&mut state, 0, &message(vec![AssistantMessageChunk::Thought]), 4);
    assert!(matches!(state.entry(0), Some(Entry::AssistantMessage(_))));
    sync(&mut state, 0, &AgentThreadEntry::ContextCompaction, 5);
    assert!(matches!(state.entry(0), Some(Entry::ContextCompaction)));
}

#[test]
fn all_diff_editors_are_restyled() {
    let mut state: EntryViewState<Ui> = EntryViewState::new();
    sync(&mut state, 0, &call_entry(ToolCallStatus::Completed, vec![(3, true)], vec![5, 6]), 0);
    sync(&mut state, 1, &user(true), 0);
    sync(&mut state, 2, &call_entry(ToolCallStatus::Completed, vec![], vec![5]), 0);
    let mut editors = state.agent_ui_font_size_changed();
    editors.sort();
    assert_eq!(editors, vec![(0, 5), (0, 6), (2, 5)]);
    state.remove(0..2);
    assert_eq!(state.agent_ui_font_size_changed(), vec![(0, 5)]);
}

#[test]
fn a_diff_location_is_opened_if_path_and_position_are_known() {
    let position = Point { row: 3, column: 9 };
    let path = || Some(String::from("src/main.rs"));
    let event = open_diff_location::<Ui>(4, path(), Some(position), true).unwrap();
    assert_eq!(describe_event(&event), "4: src/main.rs:3:9 true");
    assert!(open_diff_location::<Ui>(4, None, Some(position), true).is_none());
    assert!(open_diff_location::<Ui>(4, path(), None, false).is_none());
    assert!(open_diff_location::<Ui>(4, None, None, false).is_none());
}
