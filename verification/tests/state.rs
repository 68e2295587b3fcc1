//! What is expanded and what is collapsed.

use std::collections::HashSet;

use entry_view_state::bundle::{BundleId, BundleRecomputeHint};
use entry_view_state::entry::Handles;
use entry_view_state::key_set::KeySet;
use entry_view_state::reindex::{reindex_after_removal, reindex_all, reindex_all_blocks, reindex_block};
use entry_view_state::settings::{ThinkingBlockDisplay, ToolCallDisplay};
use entry_view_state::state::EntryViewState;
use entry_view_state::sync::NewViews;
use entry_view_state::thread::{
    AgentThreadEntry, AssistantMessage, AssistantMessageChunk, ThreadStatus, ToolCall, ToolCallId,
    ToolCallStatus, ToolKind, UserMessage,
};

struct Ui;

impl Handles for Ui {
    type MessageEditor = u32;
    type MessageEditorEvent = u32;
    type DiffEditor = u32;
    type TerminalView = u32;
    type ScrollHandle = u32;
    type FocusHandle = u32;
}

fn new_state() -> EntryViewState<Ui> {
    EntryViewState::new()
}

fn tool_call_entry(id: &str, kind: ToolKind, status: ToolCallStatus) -> AgentThreadEntry {
    AgentThreadEntry::ToolCall(ToolCall {
        id: ToolCallId::new(id),
        kind,
        status,
        subagent: false,
        terminals: vec![],
        diffs: vec![],
    })
}

fn completed(id: &str) -> AgentThreadEntry {
    tool_call_entry(id, ToolKind::Read, ToolCallStatus::Completed)
}

fn message(chunks: Vec<AssistantMessageChunk>) -> AgentThreadEntry {
    AgentThreadEntry::AssistantMessage(AssistantMessage { chunks })
}

fn user_entry() -> AgentThreadEntry {
    AgentThreadEntry::UserMessage(UserMessage { has_client_id: false })
}

/// A state whose bundle of the tool calls `id` and `next` has been expanded automatically.
fn auto_expanded(id: &str, next: &str) -> EntryViewState<Ui> {
    let mut state = new_state();
    state.recompute_bundles(&[completed(id), completed(next)], None);
    assert!(state.auto_expand_streaming_bundles(ThreadStatus::Generating, ToolCallDisplay::Auto));
    state
}

#[test]
fn test_reindex_after_removal() {
    // Entries before the removed range keep their index.
    assert_eq!(reindex_after_removal(0, &(2..4)), Some(0));
    assert_eq!(reindex_after_removal(1, &(2..4)), Some(1));
    // Entries inside the removed range are dropped.
    assert_eq!(reindex_after_removal(2, &(2..4)), None);
    assert_eq!(reindex_after_removal(3, &(2..4)), None);
    // Entries after the removed range slide down by its length.
    assert_eq!(reindex_after_removal(4, &(2..4)), Some(2));
    assert_eq!(reindex_after_removal(5, &(2..4)), Some(3));
    // An empty removal range leaves indices untouched.
    assert_eq!(reindex_after_removal(3, &(2..2)), Some(3));
}

#[test]
fn a_reversed_range_leaves_indices_untouched() {
    let reversed = std::ops::Range { start: 4, end: 2 };
    for index in 0..8 {
        assert_eq!(reindex_after_removal(index, &reversed), Some(index));
    }
    assert_eq!(reindex_after_removal(usize::MAX, &(0..usize::MAX)), Some(0));
}

#[test]
fn reindexed_entries_are_found_again() {
    let entries: Vec<usize> = (100..110).collect();
    for start in 0..=10 {
        for end in start..=10 {
            let mut left = entries.clone();
            left.drain(start..end);
            let kept: Vec<usize> =
                (0..10).filter_map(|index| reindex_after_removal(index, &(start..end))).collect();
            assert_eq!(kept, (0..left.len()).collect::<Vec<usize>>());
            for (index, entry) in entries.iter().enumerate() {
                match reindex_after_removal(index, &(start..end)) {
                    Some(to) => assert_eq!(left[to], *entry),
                    None => assert!(start <= index && index < end),
                }
            }
        }
    }
}

#[test]
fn removals_can_be_split() {
    for index in 0..12 {
        let at_once = reindex_after_removal(index, &(2..8));
        let in_parts = match reindex_after_removal(index, &(5..8)) {
            Some(to) => reindex_after_removal(to, &(2..5)),
            None => None,
        };
        assert_eq!(at_once, in_parts);
    }
}

#[test]
fn sets_of_indices_are_reindexed() {
    let mut indices: HashSet<usize> = HashSet::new();
    for index in [1, 2, 3, 7] {
        indices.insert(index);
    }
    let moved = reindex_all(&indices, &(2..4));
    assert_eq!(moved.len(), 2);
    assert!(moved.contains(&1));
    assert!(moved.contains(&5));

    let mut blocks: KeySet<(usize, usize)> = KeySet::new();
    for block in [(1, 0), (2, 0), (7, 3)] {
        blocks.insert(block);
    }
    let moved = reindex_all_blocks(&blocks, &(2..4));
    assert_eq!(moved.as_slice().len(), 2);
    assert!(moved.contains(&(1, 0)));
    assert!(moved.contains(&(5, 3)));

    assert_eq!(reindex_block(Some((7, 3)), &(2..4)), Some((5, 3)));
    assert_eq!(reindex_block(Some((3, 3)), &(2..4)), None);
    assert_eq!(reindex_block(None, &(2..4)), None);
}

#[test]
fn key_sets_hold_no_key_twice() {
    let mut ids: KeySet<ToolCallId> = KeySet::new();
    assert!(ids.is_empty());
    assert!(ids.insert(ToolCallId::new("a")));
    assert!(ids.insert(ToolCallId::new("b")));
    assert!(!ids.insert(ToolCallId::new("a")));
    assert_eq!(ids.as_slice().len(), 2);
    assert!(ids.contains(&ToolCallId::new("b")));

    let mut others: KeySet<ToolCallId> = KeySet::new();
    others.insert(ToolCallId::new("b"));
    others.insert(ToolCallId::new("c"));
    ids.retain_in(&others);
    assert!(!ids.contains(&ToolCallId::new("a")));
    assert!(ids.contains(&ToolCallId::new("b")));
    assert!(!ids.contains(&ToolCallId::new("c")));

    assert!(ids.remove(&ToolCallId::new("b")));
    assert!(!ids.remove(&ToolCallId::new("b")));
    assert!(ids.is_empty());
    others.clear();
    assert!(others.is_empty());
}

#[test]
fn test_toggle_bundle_expansion() {
    let mut state = new_state();
    let bundle_id = BundleId::ToolCall(ToolCallId::new("test-tc"));

    // Default: not expanded
    assert!(!state.tool_call_bundle_state(&bundle_id, ToolCallDisplay::Auto));

    // Toggle on
    state.toggle_tool_call_bundle_expansion(&bundle_id, ThreadStatus::Idle, ToolCallDisplay::Auto);
    assert!(state.tool_call_bundle_state(&bundle_id, ToolCallDisplay::Auto));

    // Toggle off
    state.toggle_tool_call_bundle_expansion(&bundle_id, ThreadStatus::Idle, ToolCallDisplay::Auto);
    assert!(!state.tool_call_bundle_state(&bundle_id, ToolCallDisplay::Auto));

    // ToolCallDisplay::Expanded always returns true
    assert!(state.tool_call_bundle_state(&bundle_id, ToolCallDisplay::Expanded));
}

#[test]
fn test_bundle_state_survives_removal() {
    let mut state = new_state();
    let entries = vec![
        tool_call_entry("tool-call-0", ToolKind::Read, ToolCallStatus::Completed),
        tool_call_entry("tool-call-1", ToolKind::Edit, ToolCallStatus::Completed),
        user_entry(),
        tool_call_entry("tool-call-2", ToolKind::Delete, ToolCallStatus::Completed),
        tool_call_entry("tool-call-3", ToolKind::Execute, ToolCallStatus::Completed),
    ];
    state.recompute_bundles(&entries, None);
    let bundles = state.bundles().clone();
    assert_eq!(bundles.len(), 2);

    // Expand the first bundle (user action)
    let first_id = bundles[0].id.clone();
    state.toggle_tool_call_bundle_expansion(&first_id, ThreadStatus::Idle, ToolCallDisplay::Auto);

    // Remove the second bundle (entries 3..5)
    let reduced: Vec<AgentThreadEntry> = entries.into_iter().take(3).collect();
    state.recompute_bundles(
        &reduced,
        Some(BundleRecomputeHint::EntriesRemoved { range: 3..5 }),
    );

    // First bundle's expansion state survives because it's keyed by
    // ToolCallId, not positional index.
    assert!(state.tool_call_bundle_state(&first_id, ToolCallDisplay::Auto));
}

#[test]
fn test_auto_compact_bundles() {
    let bundle_id = BundleId::ToolCall(ToolCallId::new("auto-tc"));

    // Auto-expand the bundle.
    let mut state = auto_expanded("auto-tc", "next-tc");
    assert!(state.tool_call_bundle_state(&bundle_id, ToolCallDisplay::Auto));

    // auto_compact should remove the auto-expanded bundle
    let changed = state.auto_compact_bundles(ToolCallDisplay::Auto);
    assert!(changed);

    assert!(!state.tool_call_bundle_state(&bundle_id, ToolCallDisplay::Auto));

    // Calling auto_compact again with nothing to compact returns false
    let changed = state.auto_compact_bundles(ToolCallDisplay::Auto);
    assert!(!changed);

    // auto_compact should NOT remove a user-toggled bundle
    let user_id = BundleId::ToolCall(ToolCallId::new("user-tc"));
    state.toggle_tool_call_bundle_expansion(&user_id, ThreadStatus::Idle, ToolCallDisplay::Auto);

    let changed = state.auto_compact_bundles(ToolCallDisplay::Auto);
    assert!(!changed);

    assert!(state.tool_call_bundle_state(&user_id, ToolCallDisplay::Auto));
}

#[test]
fn test_user_collapse_resists_auto_expand() {
    let mut state = auto_expanded("tool-call-0", "tool-call-1");
    let bundle_id = state.bundles()[0].id.clone();

    // User collapses the auto-expanded bundle
    state.toggle_tool_call_bundle_expansion(&bundle_id, ThreadStatus::Idle, ToolCallDisplay::Auto);

    // The bundle should be collapsed
    assert!(!state.tool_call_bundle_state(&bundle_id, ToolCallDisplay::Auto));

    // And recorded as collapsed by the user to prevent re-auto-expand
    assert!(state.is_bundle_user_collapsed(&bundle_id));
    assert!(!state.auto_expand_streaming_bundles(ThreadStatus::Generating, ToolCallDisplay::Auto));

    // auto_compact clears what the user collapsed for the next turn
    state.auto_compact_bundles(ToolCallDisplay::Auto);
    assert!(!state.is_bundle_user_collapsed(&bundle_id));
    assert!(state.auto_expand_streaming_bundles(ThreadStatus::Generating, ToolCallDisplay::Auto));
}

#[test]
fn a_bundle_that_the_user_opened_and_collapsed_during_streaming_is_left_collapsed() {
    let mut state = new_state();
    let entries = vec![
        tool_call_entry("a", ToolKind::Read, ToolCallStatus::Completed),
        tool_call_entry("b", ToolKind::Edit, ToolCallStatus::Completed),
    ];
    state.recompute_bundles(&entries, None);
    let id = state.bundles()[0].id.clone();
    state.toggle_tool_call_bundle_expansion(&id, ThreadStatus::Generating, ToolCallDisplay::Auto);
    assert!(state.tool_call_bundle_state(&id, ToolCallDisplay::Auto));
    state.toggle_tool_call_bundle_expansion(&id, ThreadStatus::Generating, ToolCallDisplay::Auto);
    assert!(!state.tool_call_bundle_state(&id, ToolCallDisplay::Auto));
    assert!(state.is_bundle_user_collapsed(&id));
    assert!(!state.auto_expand_streaming_bundles(ThreadStatus::Generating, ToolCallDisplay::Auto));
    // Expanding it once more takes it off the record.
    state.toggle_tool_call_bundle_expansion(&id, ThreadStatus::Generating, ToolCallDisplay::Auto);
    assert!(!state.is_bundle_user_collapsed(&id));
    assert!(!state.auto_compact_bundles(ToolCallDisplay::Auto));
    assert!(state.tool_call_bundle_state(&id, ToolCallDisplay::Auto));
}

#[test]
fn collapses_outside_streaming_are_not_recorded() {
    for (status, display) in [
        (ThreadStatus::Idle, ToolCallDisplay::Auto),
        (ThreadStatus::Idle, ToolCallDisplay::Compact),
        (ThreadStatus::Generating, ToolCallDisplay::Compact),
    ] {
        let mut state = new_state();
        state.recompute_bundles(&[completed("a"), completed("b")], None);
        let id = state.bundles()[0].id.clone();
        state.toggle_tool_call_bundle_expansion(&id, status, display);
        state.toggle_tool_call_bundle_expansion(&id, status, display);
        assert!(!state.tool_call_bundle_state(&id, display));
        assert!(!state.is_bundle_user_collapsed(&id));
        assert!(!state.auto_compact_bundles(display));
        assert!(state.auto_expand_streaming_bundles(ThreadStatus::Generating, ToolCallDisplay::Auto));
    }
}

#[test]
fn the_collapse_of_the_auto_expanded_bundle_is_always_recorded() {
    for (status, display) in [
        (ThreadStatus::Idle, ToolCallDisplay::Auto),
        (ThreadStatus::Generating, ToolCallDisplay::Compact),
    ] {
        let mut state = auto_expanded("a", "b");
        let id = state.bundles()[0].id.clone();
        state.toggle_tool_call_bundle_expansion(&id, status, display);
        assert!(state.is_bundle_user_collapsed(&id));
        assert!(state.auto_compact_bundles(display));
        assert!(!state.is_bundle_user_collapsed(&id));
    }
}

#[test]
fn collapsing_another_bundle_spares_the_auto_expanded_one() {
    let mut state = auto_expanded("a", "b");
    let auto = state.bundles()[0].id.clone();
    let other = BundleId::Thoughts(9);
    for _ in 0..2 {
        state.toggle_tool_call_bundle_expansion(
            &other,
            ThreadStatus::Generating,
            ToolCallDisplay::Auto,
        );
    }
    assert!(state.is_bundle_user_collapsed(&other));
    assert!(state.tool_call_bundle_state(&auto, ToolCallDisplay::Auto));
    assert!(state.auto_compact_bundles(ToolCallDisplay::Auto));
    assert!(!state.tool_call_bundle_state(&auto, ToolCallDisplay::Auto));
}

#[test]
fn only_generating_threads_in_auto_mode_expand_bundles() {
    let mut state = new_state();
    assert!(!state.auto_expand_streaming_bundles(ThreadStatus::Generating, ToolCallDisplay::Auto));
    state.recompute_bundles(&[completed("a"), completed("b")], None);
    let id = state.bundles()[0].id.clone();
    assert!(!state.auto_expand_streaming_bundles(ThreadStatus::Idle, ToolCallDisplay::Auto));
    assert!(!state.auto_expand_streaming_bundles(ThreadStatus::Generating, ToolCallDisplay::Compact));
    assert!(!state.auto_expand_streaming_bundles(ThreadStatus::Generating, ToolCallDisplay::Expanded));
    assert!(!state.tool_call_bundle_state(&id, ToolCallDisplay::Auto));
    assert!(state.auto_expand_streaming_bundles(ThreadStatus::Generating, ToolCallDisplay::Auto));
    assert!(state.tool_call_bundle_state(&id, ToolCallDisplay::Auto));
    assert!(!state.auto_expand_streaming_bundles(ThreadStatus::Generating, ToolCallDisplay::Auto));
}

#[test]
fn a_later_bundle_takes_over_the_auto_expansion() {
    let mut state = auto_expanded("a", "b");
    let first = state.bundles()[0].id.clone();
    let entries = vec![completed("a"), completed("b"), user_entry(), completed("c"), completed("d")];
    state.recompute_bundles(&entries, None);
    let second = state.bundles()[1].id.clone();
    assert!(state.tool_call_bundle_state(&first, ToolCallDisplay::Auto));
    assert!(state.auto_expand_streaming_bundles(ThreadStatus::Generating, ToolCallDisplay::Auto));
    assert!(!state.tool_call_bundle_state(&first, ToolCallDisplay::Auto));
    assert!(state.tool_call_bundle_state(&second, ToolCallDisplay::Auto));
    assert!(!state.is_bundle_user_collapsed(&first));
}

#[test]
fn compaction_leaves_everything_alone_where_bundles_are_always_expanded() {
    let mut state = auto_expanded("a", "b");
    let id = state.bundles()[0].id.clone();
    assert!(!state.auto_compact_bundles(ToolCallDisplay::Expanded));
    assert!(state.tool_call_bundle_state(&id, ToolCallDisplay::Compact));
    state.toggle_tool_call_bundle_expansion(&id, ThreadStatus::Idle, ToolCallDisplay::Expanded);
    assert!(state.tool_call_bundle_state(&id, ToolCallDisplay::Compact));
    assert!(state.auto_compact_bundles(ToolCallDisplay::Compact));
    assert!(!state.tool_call_bundle_state(&id, ToolCallDisplay::Compact));
}

#[test]
fn state_of_vanished_bundles_is_dropped() {
    let mut state = auto_expanded("a", "b");
    let id = state.bundles()[0].id.clone();
    let other = BundleId::Thoughts(4);
    state.toggle_tool_call_bundle_expansion(&other, ThreadStatus::Idle, ToolCallDisplay::Auto);
    state.recompute_bundles(&[completed("a")], None);
    assert!(state.bundles().is_empty());
    assert!(!state.tool_call_bundle_state(&id, ToolCallDisplay::Auto));
    assert!(!state.tool_call_bundle_state(&other, ToolCallDisplay::Auto));
    assert!(!state.auto_compact_bundles(ToolCallDisplay::Auto));
}

#[test]
fn a_growing_bundle_keeps_its_state() {
    let mut state = new_state();
    let mut entries = vec![completed("a"), completed("b")];
    state.recompute_bundles(&entries, None);
    let id = state.bundles()[0].id.clone();
    state.toggle_tool_call_bundle_expansion(&id, ThreadStatus::Idle, ToolCallDisplay::Auto);
    entries.push(completed("c"));
    state.recompute_bundles(&entries, Some(BundleRecomputeHint::NewEntry(2)));
    assert!(state.bundles()[0].id.same_as(&id));
    assert!(state.tool_call_bundle_state(&id, ToolCallDisplay::Auto));
}

#[test]
fn collapsed_bundles_hide_all_but_their_first_entry() {
    let mut state = new_state();
    let entries = vec![user_entry(), completed("a"), completed("b"), completed("c"), user_entry()];
    state.recompute_bundles(&entries, None);
    let hidden = |state: &EntryViewState<Ui>, display| -> Vec<bool> {
        (0..6).map(|ix| state.is_entry_in_collapsed_bundle(ix, display)).collect()
    };
    assert_eq!(
        hidden(&state, ToolCallDisplay::Auto),
        vec![false, false, true, true, false, false]
    );
    assert_eq!(hidden(&state, ToolCallDisplay::Expanded), vec![false; 6]);
    let id = state.bundles()[0].id.clone();
    state.toggle_tool_call_bundle_expansion(&id, ThreadStatus::Idle, ToolCallDisplay::Compact);
    assert_eq!(hidden(&state, ToolCallDisplay::Compact), vec![false; 6]);
}

#[test]
fn tool_calls_are_expanded_and_collapsed() {
    let mut state = new_state();
    let (a, b) = (ToolCallId::new("a"), ToolCallId::new("b"));
    assert!(!state.is_tool_call_expanded(&a));
    state.expand_tool_call(a.clone());
    state.expand_tool_call(a.clone());
    assert!(state.is_tool_call_expanded(&a));
    assert!(!state.is_tool_call_expanded(&b));
    state.collapse_tool_call(&a);
    assert!(!state.is_tool_call_expanded(&a));
    state.toggle_tool_call_expansion(&b);
    assert!(state.is_tool_call_expanded(&b));
    state.toggle_tool_call_expansion(&b);
    assert!(!state.is_tool_call_expanded(&b));
}

#[test]
fn compactions_are_expanded_and_collapsed() {
    let mut state = new_state();
    assert!(!state.is_compaction_expanded(3));
    state.toggle_compaction_expansion(3);
    assert!(state.is_compaction_expanded(3));
    assert!(!state.is_compaction_expanded(2));
    state.toggle_compaction_expansion(3);
    assert!(!state.is_compaction_expanded(3));
    state.toggle_compaction_expansion(3);
    state.collapse_compaction(3);
    assert!(!state.is_compaction_expanded(3));
    state.collapse_compaction(3);
    assert!(!state.is_compaction_expanded(3));
}

#[test]
fn toggling_flips_thinking_blocks() {
    for (display, open) in [
        (ThinkingBlockDisplay::Auto, false),
        (ThinkingBlockDisplay::AlwaysExpanded, true),
        (ThinkingBlockDisplay::AlwaysCollapsed, false),
    ] {
        let mut state = new_state();
        assert_eq!(state.thinking_block_state((1, 0), display), (open, false));
        state.toggle_thinking_block_expansion((1, 0), display);
        assert_eq!(state.thinking_block_state((1, 0), display), (!open, false));
        assert_eq!(state.thinking_block_state((1, 1), display), (open, false));
        state.toggle_thinking_block_expansion((1, 0), display);
        assert_eq!(state.thinking_block_state((1, 0), display), (open, false));
    }
}

#[test]
fn toggling_cycles_previewed_blocks() {
    let display = ThinkingBlockDisplay::Preview;
    let thinking = [message(vec![AssistantMessageChunk::Thought])];
    let mut state = new_state();
    assert_eq!(state.thinking_block_state((0, 0), display), (false, false));
    assert!(state.auto_expand_streaming_thought(&thinking, display));
    assert_eq!(state.thinking_block_state((0, 0), display), (true, true));
    state.toggle_thinking_block_expansion((0, 0), display);
    assert_eq!(state.thinking_block_state((0, 0), display), (true, false));
    state.toggle_thinking_block_expansion((0, 0), display);
    assert_eq!(state.thinking_block_state((0, 0), display), (false, false));
    state.toggle_thinking_block_expansion((0, 0), display);
    assert_eq!(state.thinking_block_state((0, 0), display), (true, false));
}

#[test]
fn streaming_thoughts_are_open_while_they_stream() {
    let display = ThinkingBlockDisplay::Auto;
    let thinking = [
        user_entry(),
        message(vec![AssistantMessageChunk::Message, AssistantMessageChunk::Thought]),
    ];
    let answering = [
        user_entry(),
        message(vec![
            AssistantMessageChunk::Message,
            AssistantMessageChunk::Thought,
            AssistantMessageChunk::Message,
        ]),
    ];
    let mut state = new_state();
    assert!(!state.auto_expand_streaming_thought(&[], display));
    assert!(!state.auto_expand_streaming_thought(&answering, display));
    assert!(state.auto_expand_streaming_thought(&thinking, display));
    assert!(state.is_auto_expanded_thinking_block((1, 1)));
    assert!(!state.is_auto_expanded_thinking_block((1, 0)));
    assert_eq!(state.thinking_block_state((1, 1), display), (true, false));
    assert!(!state.auto_expand_streaming_thought(&thinking, display));
    assert!(state.auto_expand_streaming_thought(&answering, display));
    assert_eq!(state.thinking_block_state((1, 1), display), (false, false));
    assert!(!state.is_auto_expanded_thinking_block((1, 1)));
    assert!(!state.auto_expand_streaming_thought(&answering, display));
}

#[test]
fn previewed_thoughts_stay_open_after_they_stream() {
    let display = ThinkingBlockDisplay::Preview;
    let thinking = [message(vec![AssistantMessageChunk::Thought])];
    let mut state = new_state();
    assert!(state.auto_expand_streaming_thought(&thinking, display));
    assert!(state.auto_expand_streaming_thought(&[user_entry()], display));
    assert_eq!(state.thinking_block_state((0, 0), display), (true, true));
}

#[test]
fn the_user_can_close_a_thought_while_it_streams() {
    let display = ThinkingBlockDisplay::Auto;
    let thinking = [message(vec![AssistantMessageChunk::Thought])];
    let mut state = new_state();
    state.auto_expand_streaming_thought(&thinking, display);
    state.toggle_thinking_block_expansion((0, 0), display);
    assert_eq!(state.thinking_block_state((0, 0), display), (false, false));
    assert!(!state.auto_expand_streaming_thought(&thinking, display));
    assert_eq!(state.thinking_block_state((0, 0), display), (false, false));
    // Opening it again makes it the user's own, which stays open.
    state.toggle_thinking_block_expansion((0, 0), display);
    assert!(state.auto_expand_streaming_thought(&[user_entry()], display));
    assert_eq!(state.thinking_block_state((0, 0), display), (true, false));
}

#[test]
fn fixed_modes_do_not_follow_streaming_thoughts() {
    let thinking = [message(vec![AssistantMessageChunk::Thought])];
    for display in [ThinkingBlockDisplay::AlwaysExpanded, ThinkingBlockDisplay::AlwaysCollapsed] {
        let mut state = new_state();
        assert!(!state.auto_expand_streaming_thought(&thinking, display));
        assert!(!state.is_auto_expanded_thinking_block((0, 0)));
    }
}

#[test]
fn letting_go_of_a_thought_keeps_its_block_open() {
    let display = ThinkingBlockDisplay::Auto;
    let mut state = new_state();
    state.auto_expand_streaming_thought(&[message(vec![AssistantMessageChunk::Thought])], display);
    state.clear_auto_expanded_thinking();
    assert!(!state.is_auto_expanded_thinking_block((0, 0)));
    assert_eq!(state.thinking_block_state((0, 0), display), (true, false));
    assert!(!state.auto_expand_streaming_thought(&[user_entry()], display));
}

#[test]
fn removal_takes_expansion_along() {
    let display = ThinkingBlockDisplay::Auto;
    let mut state = new_state();
    for index in 0..6 {
        let views = NewViews {
            message_editor: None,
            terminals: vec![],
            diff_editors: vec![],
            focus_handle: 0,
            scroll_handle: 0,
        };
        let effects =
            state.sync_entry(index, Some(&AgentThreadEntry::ContextCompaction), false, views);
        assert!(effects.is_empty());
    }
    for index in [1, 2, 5] {
        state.toggle_compaction_expansion(index);
        state.toggle_thinking_block_expansion((index, 7), display);
    }
    let mut thinking: Vec<AgentThreadEntry> = (0..5).map(|_| user_entry()).collect();
    thinking.push(message(vec![AssistantMessageChunk::Thought]));
    assert!(state.auto_expand_streaming_thought(&thinking, display));
    state.remove(2..4);
    let expanded: Vec<bool> = (0..6).map(|index| state.is_compaction_expanded(index)).collect();
    assert_eq!(expanded, vec![false, true, false, true, false, false]);
    for index in 0..6 {
        let is_open = state.thinking_block_state((index, 7), display).0;
        assert_eq!(is_open, state.is_compaction_expanded(index));
    }
    assert!(state.is_auto_expanded_thinking_block((3, 0)));
    assert!(state.entry(3).is_some());
    assert!(state.entry(4).is_none());
    state.remove(1..1);
    assert!(state.is_compaction_expanded(1));
    assert!(state.entry(3).is_some());
    state.remove(3..4);
    assert!(!state.is_auto_expanded_thinking_block((3, 0)));
    assert!(!state.is_compaction_expanded(3));
}

#[test]
fn identifiers_are_compared_by_their_text() {
    let id = ToolCallId::new("call");
    assert_eq!(id.as_str(), "call");
    assert!(id.same_as(&id.clone()));
    assert!(!id.same_as(&ToolCallId::new("Call")));
    assert!(BundleId::ToolCall(id.clone()).same_as(&BundleId::ToolCall(id)));
    assert!(BundleId::Thoughts(3).same_as(&BundleId::Thoughts(3)));
    assert!(!BundleId::Thoughts(3).same_as(&BundleId::Thoughts(4)));
    assert!(!BundleId::Thoughts(3).same_as(&BundleId::ToolCall(ToolCallId::new("3"))));
}
