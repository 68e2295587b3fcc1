//! Bringing bundles up to date after a change of the entries.

use std::rc::Rc;

use entry_view_state::bundle::{compute_tool_call_bundles, BundleRecomputeHint, ToolCallBundle};
use entry_view_state::entry::Handles;
use entry_view_state::recompute::{
    affected_start, change_keeps_bundles, check_hint, ends_at, refresh_bundles,
};
use entry_view_state::state::EntryViewState;
use entry_view_state::thread::{
    AgentThreadEntry, AssistantMessage, AssistantMessageChunk, ToolCall, ToolCallId,
    ToolCallStatus, ToolKind, UserMessage,
};

struct Ui;

impl Handles for Ui {
    type MessageEditor = u32;
    type MessageEditorEvent = u32;
    type DiffEditor = u32;
    type TerminalView = u32;
    type ScrollHandle = u32;
    type FocusHandle = u32;
}

fn tool_call_entry(id: &str, kind: ToolKind, status: ToolCallStatus) -> AgentThreadEntry {
    AgentThreadEntry::ToolCall(ToolCall {
        id: ToolCallId::new(id),
        kind,
        status,
        subagent: false,
        terminals: vec![],
        diffs: vec![],
    })
}

fn message(chunks: Vec<AssistantMessageChunk>) -> AgentThreadEntry {
    AgentThreadEntry::AssistantMessage(AssistantMessage { chunks })
}

fn thoughts(count: usize) -> AgentThreadEntry {
    message(vec![AssistantMessageChunk::Thought; count])
}

fn mixed(count: usize) -> AgentThreadEntry {
    let mut chunks = vec![AssistantMessageChunk::Thought; count];
    chunks.push(AssistantMessageChunk::Message);
    message(chunks)
}

fn user_entry() -> AgentThreadEntry {
    AgentThreadEntry::UserMessage(UserMessage { has_client_id: false })
}

fn shown(bundles: &[ToolCallBundle]) -> Vec<String> {
    bundles.iter().map(|bundle| format!("{:?}", bundle)).collect()
}

#[test]
fn test_recompute_new_entry_appends_to_run() {
    let mut state: EntryViewState<Ui> = EntryViewState::new();
    let entries = vec![
        tool_call_entry("tool-call-0", ToolKind::Read, ToolCallStatus::Completed),
        tool_call_entry("tool-call-1", ToolKind::Edit, ToolCallStatus::Completed),
    ];
    state.recompute_bundles(&entries, None);
    assert_eq!(state.bundles().len(), 1);

    // Append Tool(Delete, Completed) at index 2
    let mut updated = entries;
    updated.push(tool_call_entry("tool-call-2", ToolKind::Delete, ToolCallStatus::Completed));
    state.recompute_bundles(&updated, Some(BundleRecomputeHint::NewEntry(2)));

    let bundle = state.bundles()[0].clone();
    assert_eq!(bundle.start_index, 0);
    assert_eq!(bundle.end_index, 3);
    assert_eq!(bundle.tool_call_count, 3);
}

#[test]
fn test_recompute_new_entry_ineligible() {
    let mut state: EntryViewState<Ui> = EntryViewState::new();
    let entries = vec![
        tool_call_entry("tool-call-0", ToolKind::Read, ToolCallStatus::Completed),
        tool_call_entry("tool-call-1", ToolKind::Edit, ToolCallStatus::Completed),
    ];
    state.recompute_bundles(&entries, None);

    // Append a user message at index 2 (ineligible)
    let mut updated = entries;
    updated.push(user_entry());
    state.recompute_bundles(&updated, Some(BundleRecomputeHint::NewEntry(2)));

    let bundles = state.bundles().clone();
    assert_eq!(bundles.len(), 1);
    assert_eq!(bundles[0].start_index, 0);
    assert_eq!(bundles[0].end_index, 2);
}

#[test]
fn test_recompute_entry_updated_becomes_ineligible() {
    let mut state: EntryViewState<Ui> = EntryViewState::new();
    let entries = vec![
        tool_call_entry("tool-call-0", ToolKind::Read, ToolCallStatus::Completed),
        tool_call_entry("tool-call-1", ToolKind::Edit, ToolCallStatus::Completed),
        tool_call_entry("tool-call-2", ToolKind::Delete, ToolCallStatus::Completed),
    ];
    state.recompute_bundles(&entries, None);

    // Entry at index 1 becomes Canceled (ineligible)
    let mut updated = entries;
    updated[1] = tool_call_entry("tool-call-3", ToolKind::Edit, ToolCallStatus::Canceled);
    state.recompute_bundles(&updated, Some(BundleRecomputeHint::EntryUpdated(1)));

    let bundles = state.bundles().clone();
    assert!(bundles.is_empty(), "waiting tool breaks eligibility; no bundles expected");
}

#[test]
fn test_recompute_entry_updated_becomes_eligible() {
    let mut state: EntryViewState<Ui> = EntryViewState::new();
    let entries = vec![
        tool_call_entry("tool-call-0", ToolKind::Read, ToolCallStatus::Completed),
        tool_call_entry("tool-call-1", ToolKind::Edit, ToolCallStatus::WaitingForConfirmation),
        tool_call_entry("tool-call-2", ToolKind::Delete, ToolCallStatus::Completed),
    ];
    state.recompute_bundles(&entries, None);
    assert!(
        state.bundles().is_empty(),
        "waiting tool breaks eligibility; no bundles expected"
    );

    // Entry at index 1 becomes Completed (now eligible)
    let mut updated = entries;
    updated[1] = tool_call_entry("tool-call-3", ToolKind::Edit, ToolCallStatus::Completed);
    state.recompute_bundles(&updated, Some(BundleRecomputeHint::EntryUpdated(1)));

    let bundles = state.bundles().clone();
    assert_eq!(bundles.len(), 1);
    assert_eq!(bundles[0].start_index, 0);
    assert_eq!(bundles[0].end_index, 3);
    assert_eq!(bundles[0].tool_call_count, 3);
}

#[test]
fn test_recompute_entry_updated_no_change_skips() {
    let mut state: EntryViewState<Ui> = EntryViewState::new();
    let entries = vec![
        tool_call_entry("tool-call-0", ToolKind::Read, ToolCallStatus::Completed),
        tool_call_entry("tool-call-1", ToolKind::Edit, ToolCallStatus::Completed),
    ];
    state.recompute_bundles(&entries, None);
    let original = state.bundles().clone();

    // "Update" entry 0 to the same state (still eligible)
    state.recompute_bundles(&entries, Some(BundleRecomputeHint::EntryUpdated(0)));

    // Bundles unchanged (same Rc pointer: recompute was skipped)
    assert!(Rc::ptr_eq(state.bundles(), &original));
}

#[test]
fn test_recompute_split_run_handled_correctly() {
    let mut state: EntryViewState<Ui> = EntryViewState::new();
    let entries: Vec<AgentThreadEntry> = (0..10)
        .map(|ix| {
            tool_call_entry(&format!("tool-call-{}", ix), ToolKind::Read, ToolCallStatus::Completed)
        })
        .collect();
    state.recompute_bundles(&entries, None);

    // Make entry 5 Canceled (ineligible)
    let mut updated = entries;
    updated[5] = tool_call_entry("tool-call-10", ToolKind::Read, ToolCallStatus::Canceled);
    state.recompute_bundles(&updated, Some(BundleRecomputeHint::EntryUpdated(5)));

    let bundles = state.bundles().clone();
    assert_eq!(bundles.len(), 2);
    assert_eq!(bundles[0].start_index, 0);
    assert_eq!(bundles[0].end_index, 5);
    assert_eq!(bundles[0].tool_call_count, 5);
    assert_eq!(bundles[1].start_index, 6);
    assert_eq!(bundles[1].end_index, 10);
    assert_eq!(bundles[1].tool_call_count, 4);
}

#[test]
fn test_recompute_entries_removed() {
    let mut state: EntryViewState<Ui> = EntryViewState::new();
    let entries = vec![
        tool_call_entry("tool-call-0", ToolKind::Read, ToolCallStatus::Completed),
        tool_call_entry("tool-call-1", ToolKind::Edit, ToolCallStatus::Completed),
        user_entry(),
        tool_call_entry("tool-call-2", ToolKind::Delete, ToolCallStatus::Completed),
        tool_call_entry("tool-call-3", ToolKind::Execute, ToolCallStatus::Completed),
    ];
    state.recompute_bundles(&entries, None);
    assert_eq!(state.bundles().len(), 2);

    // Remove entries 3..5 (the last two tool calls)
    let reduced: Vec<AgentThreadEntry> = entries.into_iter().take(3).collect();
    state.recompute_bundles(
        &reduced,
        Some(BundleRecomputeHint::EntriesRemoved { range: 3..5 }),
    );

    let bundles = state.bundles().clone();
    assert_eq!(bundles.len(), 1);
    assert_eq!(bundles[0].start_index, 0);
    assert_eq!(bundles[0].end_index, 2);
}

/// The entries that the tests below append one by one.
fn appended(ix: usize) -> AgentThreadEntry {
    match ix % 9 {
        0 => tool_call_entry(&format!("call-{}", ix), ToolKind::Read, ToolCallStatus::Completed),
        1 => thoughts(2),
        2 => mixed(1),
        3 => mixed(3),
        4 => tool_call_entry(&format!("call-{}", ix), ToolKind::Edit, ToolCallStatus::Canceled),
        5 => thoughts(1),
        6 => user_entry(),
        7 => mixed(2),
        _ => thoughts(1),
    }
}

#[test]
fn appending_keeps_the_bundles_complete() {
    let mut state: EntryViewState<Ui> = EntryViewState::new();
    let mut entries: Vec<AgentThreadEntry> = vec![];
    for ix in 0..30 {
        entries.push(appended(ix));
        state.recompute_bundles(&entries, Some(BundleRecomputeHint::NewEntry(ix)));
        assert_eq!(shown(state.bundles()), shown(&compute_tool_call_bundles(&entries, 0)));
    }
}

#[test]
fn updating_keeps_the_bundles_complete() {
    for ix in 0..12 {
        for replacement in 0..9 {
            let mut state: EntryViewState<Ui> = EntryViewState::new();
            let mut entries: Vec<AgentThreadEntry> = (0..12).map(appended).collect();
            state.recompute_bundles(&entries, None);
            entries[ix] = appended(replacement);
            state.recompute_bundles(&entries, Some(BundleRecomputeHint::EntryUpdated(ix)));
            // A tool call may have been left uncounted, a message never.
            if !matches!(entries[ix], AgentThreadEntry::ToolCall(_)) {
                assert_eq!(shown(state.bundles()), shown(&compute_tool_call_bundles(&entries, 0)));
            }
        }
    }
}

#[test]
fn an_update_that_keeps_the_bundles_keeps_their_counts() {
    // The tool call stays eligible within its bundle, so that its new kind is not counted.
    let mut state: EntryViewState<Ui> = EntryViewState::new();
    let mut entries = vec![
        tool_call_entry("a", ToolKind::Read, ToolCallStatus::Completed),
        tool_call_entry("b", ToolKind::Read, ToolCallStatus::Completed),
    ];
    state.recompute_bundles(&entries, None);
    entries[1] = tool_call_entry("b", ToolKind::Edit, ToolCallStatus::Completed);
    state.recompute_bundles(&entries, Some(BundleRecomputeHint::EntryUpdated(1)));
    assert_eq!(state.bundles()[0].kind_counts_iter(), vec![(ToolKind::Read, 2)]);
    state.recompute_bundles(&entries, None);
    assert_eq!(
        state.bundles()[0].kind_counts_iter(),
        vec![(ToolKind::Read, 1), (ToolKind::Edit, 1)]
    );
}

#[test]
fn an_update_behind_a_bundle_recomputes_it() {
    let mut state: EntryViewState<Ui> = EntryViewState::new();
    let mut entries = vec![
        thoughts(1),
        thoughts(1),
        tool_call_entry("a", ToolKind::Read, ToolCallStatus::WaitingForConfirmation),
    ];
    state.recompute_bundles(&entries, None);
    let before = state.bundles().clone();
    assert!(ends_at(&before, 2));
    assert!(!ends_at(&before, 1));
    assert!(!ends_at(&before, 0));
    entries[2] = tool_call_entry("a", ToolKind::Read, ToolCallStatus::Canceled);
    state.recompute_bundles(&entries, Some(BundleRecomputeHint::EntryUpdated(2)));
    assert!(!Rc::ptr_eq(state.bundles(), &before));
    assert_eq!(shown(state.bundles()), shown(&before));
}

#[test]
fn a_message_is_recomputed_as_its_thoughts_grow() {
    let mut state: EntryViewState<Ui> = EntryViewState::new();
    let mut entries = vec![
        tool_call_entry("a", ToolKind::Read, ToolCallStatus::Completed),
        thoughts(1),
    ];
    state.recompute_bundles(&entries, None);
    assert_eq!(state.bundles()[0].label, "1 thinking block · 1 tool call");
    entries[1] = thoughts(2);
    state.recompute_bundles(&entries, Some(BundleRecomputeHint::EntryUpdated(1)));
    assert_eq!(state.bundles()[0].thought_count, 2);
    assert_eq!(state.bundles()[0].label, "2 thinking blocks · 1 tool call");
}

#[test]
fn rewinding_to_a_user_message_keeps_the_bundles_complete() {
    let mut state: EntryViewState<Ui> = EntryViewState::new();
    let entries: Vec<AgentThreadEntry> = (0..20).map(appended).collect();
    state.recompute_bundles(&entries, None);
    let left: Vec<AgentThreadEntry> = (0..6).map(appended).collect();
    state.recompute_bundles(
        &left,
        Some(BundleRecomputeHint::EntriesRemoved { range: 6..20 }),
    );
    assert_eq!(shown(state.bundles()), shown(&compute_tool_call_bundles(&left, 0)));
}

#[test]
fn a_removal_that_cuts_a_bundle_leaves_the_rest_of_it() {
    let mut state: EntryViewState<Ui> = EntryViewState::new();
    let call = |ix: usize| {
        tool_call_entry(&format!("call-{}", ix), ToolKind::Read, ToolCallStatus::Completed)
    };
    let entries: Vec<AgentThreadEntry> = (0..4).map(call).collect();
    state.recompute_bundles(&entries, None);
    assert_eq!(state.bundles().len(), 1);
    assert_eq!(state.bundles()[0].end_index, 4);
    let left: Vec<AgentThreadEntry> = (0..2).map(call).collect();
    let hint = BundleRecomputeHint::EntriesRemoved { range: 2..4 };
    assert_eq!(affected_start(state.bundles(), &left, &hint), 0);
    state.recompute_bundles(&left, Some(hint));
    assert_eq!(state.bundles().len(), 1);
    assert_eq!(state.bundles()[0].start_index, 0);
    assert_eq!(state.bundles()[0].end_index, 2);
}

#[test]
fn removing_any_range_keeps_the_bundles_complete() {
    for start in 0..=14 {
        for end in start..=14 {
            let mut state: EntryViewState<Ui> = EntryViewState::new();
            let entries: Vec<AgentThreadEntry> = (0..14).map(appended).collect();
            state.recompute_bundles(&entries, None);
            let left: Vec<AgentThreadEntry> =
                (0..14).filter(|ix| *ix < start || *ix >= end).map(appended).collect();
            state.recompute_bundles(
                &left,
                Some(BundleRecomputeHint::EntriesRemoved { range: start..end }),
            );
            assert_eq!(shown(state.bundles()), shown(&compute_tool_call_bundles(&left, 0)));
        }
    }
}

#[test]
fn changes_reach_back_over_eligible_entries() {
    let entries = vec![user_entry(), thoughts(1), mixed(1), thoughts(1), thoughts(1)];
    let bundles = compute_tool_call_bundles(&entries[..4], 0);
    assert_eq!(affected_start(&bundles, &entries, &BundleRecomputeHint::NewEntry(4)), 1);
    assert_eq!(affected_start(&bundles, &entries, &BundleRecomputeHint::EntryUpdated(1)), 1);
    assert_eq!(affected_start(&bundles, &entries, &BundleRecomputeHint::EntryUpdated(0)), 0);
    assert_eq!(
        affected_start(&bundles, &entries, &BundleRecomputeHint::EntriesRemoved { range: 3..4 }),
        1
    );
    assert_eq!(
        affected_start(&bundles, &entries, &BundleRecomputeHint::EntriesRemoved { range: 1..4 }),
        1
    );
}

#[test]
fn bundles_before_the_change_are_kept() {
    let entries = vec![thoughts(1), thoughts(2), user_entry(), thoughts(1), thoughts(1)];
    let bundles = compute_tool_call_bundles(&entries[..4], 0);
    let hint = Some(BundleRecomputeHint::NewEntry(4));
    assert!(!change_keeps_bundles(&bundles, &entries, &hint));
    let fresh = refresh_bundles(&bundles, &entries, &hint);
    assert_eq!(shown(&fresh), shown(&compute_tool_call_bundles(&entries, 0)));
    assert!(!change_keeps_bundles(&bundles, &entries, &None));
    assert_eq!(shown(&refresh_bundles(&bundles, &entries, &None)), shown(&fresh));
}

#[test]
fn hints_speak_of_places_that_there_are() {
    let entries = vec![thoughts(1), thoughts(1), thoughts(1)];
    let bundles = compute_tool_call_bundles(&entries, 0);
    let fits = |count: usize, hint: BundleRecomputeHint| {
        check_hint(&bundles, &entries[..count], &Some(hint))
    };
    assert!(check_hint(&bundles, &entries, &None));
    assert!(fits(3, BundleRecomputeHint::NewEntry(2)));
    assert!(fits(3, BundleRecomputeHint::NewEntry(3)));
    assert!(!fits(3, BundleRecomputeHint::NewEntry(4)));
    // The bundle around the entry begins early enough.
    assert!(fits(1, BundleRecomputeHint::EntryUpdated(2)));
    assert!(!fits(3, BundleRecomputeHint::EntryUpdated(5)));
    assert!(fits(2, BundleRecomputeHint::EntriesRemoved { range: 2..3 }));
    assert!(!fits(1, BundleRecomputeHint::EntriesRemoved { range: 2..3 }));
}
