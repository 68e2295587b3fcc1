//! Which entries are bundled, and what a bundle says of them.

use entry_view_state::bundle::{
    compute_tool_call_bundles, entry_thought_count, is_entry_bundle_eligible, is_entry_bundle_terminating,
    trailing_thought_count, BundleId, BundleRecomputeHint, ToolCallBundle,
};
use entry_view_state::recompute::get_bundle_for_entry;
use entry_view_state::tallies::check_tallies;
use entry_view_state::text::{bundle_label, decimal_text};
use entry_view_state::thread::{
    AgentThreadEntry, AssistantMessage, AssistantMessageChunk, ToolCall, ToolCallId,
    ToolCallStatus, ToolKind, UserMessage,
};
use entry_view_state::tool_kind::{
    tool_kind_from_sort_key, tool_kind_info, tool_kind_sort_key, IconName, TOOL_KIND_COUNT,
};

fn tool_call(id: &str, kind: ToolKind, status: ToolCallStatus, subagent: bool) -> AgentThreadEntry {
    AgentThreadEntry::ToolCall(ToolCall {
        id: ToolCallId::new(id),
        kind,
        status,
        subagent,
        terminals: vec![],
        diffs: vec![],
    })
}

fn tool_call_entry(id: &str, kind: ToolKind, status: ToolCallStatus) -> AgentThreadEntry {
    tool_call(id, kind, status, false)
}

fn tool_call_with_tool_name(
    id: &str,
    kind: ToolKind,
    status: ToolCallStatus,
    tool_name: &str,
) -> AgentThreadEntry {
    tool_call(id, kind, status, tool_name == "spawn_agent")
}

fn message(chunks: Vec<AssistantMessageChunk>) -> AgentThreadEntry {
    AgentThreadEntry::AssistantMessage(AssistantMessage { chunks })
}

fn thought_entry() -> AgentThreadEntry {
    message(vec![AssistantMessageChunk::Thought])
}

fn text_entry() -> AgentThreadEntry {
    message(vec![AssistantMessageChunk::Message])
}

fn user_entry() -> AgentThreadEntry {
    AgentThreadEntry::UserMessage(UserMessage { has_client_id: false })
}

/// A mixed message with the given number of thought chunks plus one text chunk.
fn mixed_thought_message(thought_count: usize) -> AgentThreadEntry {
    let mut chunks = vec![AssistantMessageChunk::Thought; thought_count];
    chunks.push(AssistantMessageChunk::Message);
    message(chunks)
}

fn kind_count(bundle: &ToolCallBundle, kind: ToolKind) -> u32 {
    bundle
        .kind_counts_iter()
        .into_iter()
        .find(|(k, _)| *k == kind)
        .map(|(_, c)| c)
        .unwrap_or(0)
}

fn id_text(bundle: &ToolCallBundle) -> String {
    match &bundle.id {
        BundleId::ToolCall(id) => format!("call {}", id.as_str()),
        BundleId::Thoughts(start) => format!("thoughts {}", start),
    }
}

#[test]
fn test_compute_tool_call_bundles_empty() {
    let entries: Vec<AgentThreadEntry> = vec![];
    let bundles = compute_tool_call_bundles(&entries, 0);
    assert!(bundles.is_empty());
}

#[test]
fn test_compute_tool_call_bundles_two_tool_calls() {
    let entries = vec![
        tool_call_entry("tool-call-0", ToolKind::Read, ToolCallStatus::Completed),
        tool_call_entry("tool-call-1", ToolKind::Edit, ToolCallStatus::Completed),
    ];
    let bundles = compute_tool_call_bundles(&entries, 0);
    assert_eq!(bundles.len(), 1);
    let bundle = &bundles[0];
    assert_eq!(bundle.start_index, 0);
    assert_eq!(bundle.end_index, 2);
    assert_eq!(bundle.tool_call_count, 2);
    assert_eq!(bundle.thought_count, 0);
    assert_eq!(kind_count(bundle, ToolKind::Read), 1);
    assert_eq!(kind_count(bundle, ToolKind::Edit), 1);
}

#[test]
fn test_compute_tool_call_bundles_mixed_tool_calls_and_thoughts() {
    let entries = vec![
        tool_call_entry("tool-call-0", ToolKind::Read, ToolCallStatus::Completed),
        thought_entry(),
        tool_call_entry("tool-call-1", ToolKind::Edit, ToolCallStatus::Completed),
        thought_entry(),
    ];
    let bundles = compute_tool_call_bundles(&entries, 0);
    assert_eq!(bundles.len(), 1);
    let bundle = &bundles[0];
    assert_eq!(bundle.start_index, 0);
    assert_eq!(bundle.end_index, 4);
    assert_eq!(bundle.tool_call_count, 2);
    assert_eq!(bundle.thought_count, 2);
    assert_eq!(kind_count(bundle, ToolKind::Read), 1);
    assert_eq!(kind_count(bundle, ToolKind::Edit), 1);
}

#[test]
fn test_compute_tool_call_bundles_boundary_at_user_message() {
    let entries = vec![
        tool_call_entry("tool-call-0", ToolKind::Read, ToolCallStatus::Completed),
        tool_call_entry("tool-call-1", ToolKind::Edit, ToolCallStatus::Completed),
        user_entry(),
        tool_call_entry("tool-call-2", ToolKind::Read, ToolCallStatus::Completed),
        tool_call_entry("tool-call-3", ToolKind::Edit, ToolCallStatus::Completed),
    ];
    let bundles = compute_tool_call_bundles(&entries, 0);
    assert_eq!(bundles.len(), 2);
    assert_eq!(bundles[0].start_index, 0);
    assert_eq!(bundles[0].end_index, 2);
    assert_eq!(bundles[1].start_index, 3);
    assert_eq!(bundles[1].end_index, 5);
}

#[test]
fn test_compute_tool_call_bundles_boundary_at_waiting_for_confirmation() {
    let entries = vec![
        tool_call_entry("tool-call-0", ToolKind::Read, ToolCallStatus::WaitingForConfirmation),
        tool_call_entry("tool-call-1", ToolKind::Read, ToolCallStatus::Completed),
        tool_call_entry("tool-call-2", ToolKind::Edit, ToolCallStatus::Completed),
    ];
    let bundles = compute_tool_call_bundles(&entries, 0);
    assert_eq!(bundles.len(), 1);
    assert_eq!(bundles[0].start_index, 1);
    assert_eq!(bundles[0].end_index, 3);
    assert_eq!(bundles[0].tool_call_count, 2);
}

#[test]
fn test_compute_tool_call_bundles_subagent_not_eligible() {
    let entries = vec![
        tool_call_with_tool_name(
            "tool-call-0",
            ToolKind::Read,
            ToolCallStatus::Completed,
            "spawn_agent",
        ),
        tool_call_entry("tool-call-1", ToolKind::Read, ToolCallStatus::Completed),
        tool_call_entry("tool-call-2", ToolKind::Edit, ToolCallStatus::Completed),
    ];
    let bundles = compute_tool_call_bundles(&entries, 0);
    assert_eq!(bundles.len(), 1);
    assert_eq!(bundles[0].start_index, 1);
    assert_eq!(bundles[0].end_index, 3);
}

#[test]
fn test_compute_tool_call_bundles_pure_thought_message() {
    let entries = vec![thought_entry(), thought_entry()];
    let bundles = compute_tool_call_bundles(&entries, 0);
    assert_eq!(bundles.len(), 1);
    assert_eq!(bundles[0].start_index, 0);
    assert_eq!(bundles[0].end_index, 2);
    assert_eq!(bundles[0].tool_call_count, 0);
    assert_eq!(bundles[0].thought_count, 2);
}

#[test]
fn test_compute_tool_call_bundles_mixed_message_terminates() {
    // A mixed message (thoughts + text) is eligible but terminating: it ends the bundle.
    // [Tool, Mixed, Tool, Tool] => two bundles.
    let entries = vec![
        tool_call_entry("tool-call-0", ToolKind::Read, ToolCallStatus::Completed),
        mixed_thought_message(1),
        tool_call_entry("tool-call-1", ToolKind::Edit, ToolCallStatus::Completed),
        tool_call_entry("tool-call-2", ToolKind::Read, ToolCallStatus::Completed),
    ];
    let bundles = compute_tool_call_bundles(&entries, 0);
    assert_eq!(bundles.len(), 2);
    assert_eq!(bundles[0].start_index, 0);
    assert_eq!(bundles[0].end_index, 2);
    assert_eq!(bundles[0].tool_call_count, 1);
    assert_eq!(bundles[0].thought_count, 1);
    assert_eq!(bundles[1].start_index, 2);
    assert_eq!(bundles[1].end_index, 4);
    assert_eq!(bundles[1].tool_call_count, 2);
}

#[test]
fn test_compute_tool_call_bundles_pure_text_message_is_boundary() {
    // A pure-text message (no thoughts) is a hard boundary.
    let entries = vec![
        tool_call_entry("tool-call-0", ToolKind::Read, ToolCallStatus::Completed),
        text_entry(),
        tool_call_entry("tool-call-1", ToolKind::Edit, ToolCallStatus::Completed),
    ];
    let bundles = compute_tool_call_bundles(&entries, 0);
    // The text message breaks the run: two singletons, no bundle.
    assert!(bundles.is_empty());
}

#[test]
fn test_get_bundle_for_entry_in_bundle() {
    let entries = vec![
        tool_call_entry("tool-call-0", ToolKind::Read, ToolCallStatus::Completed),
        tool_call_entry("tool-call-1", ToolKind::Edit, ToolCallStatus::Completed),
    ];
    let bundles = compute_tool_call_bundles(&entries, 0);
    assert_eq!(bundles.len(), 1);

    let found = get_bundle_for_entry(&bundles, 0);
    assert!(found.is_some());
    assert_eq!(found.unwrap().start_index, 0);

    let found = get_bundle_for_entry(&bundles, 1);
    assert!(found.is_some());
}

#[test]
fn test_get_bundle_for_entry_not_in_bundle() {
    let entries = vec![
        tool_call_entry("tool-call-0", ToolKind::Read, ToolCallStatus::Completed),
        tool_call_entry("tool-call-1", ToolKind::Edit, ToolCallStatus::Completed),
        user_entry(),
        tool_call_entry("tool-call-2", ToolKind::Read, ToolCallStatus::Completed),
        tool_call_entry("tool-call-3", ToolKind::Edit, ToolCallStatus::Completed),
    ];
    let bundles = compute_tool_call_bundles(&entries, 0);
    assert_eq!(bundles.len(), 2);

    assert!(get_bundle_for_entry(&bundles, 2).is_none());
}

#[test]
fn every_entry_of_two_bundles_is_looked_up() {
    let entries = vec![
        user_entry(),
        thought_entry(),
        thought_entry(),
        user_entry(),
        thought_entry(),
        thought_entry(),
        thought_entry(),
    ];
    let bundles = compute_tool_call_bundles(&entries, 0);
    let starts: Vec<Option<usize>> = (0..9)
        .map(|ix| get_bundle_for_entry(&bundles, ix).map(|bundle| bundle.start_index))
        .collect();
    assert_eq!(
        starts,
        vec![None, Some(1), Some(1), None, Some(4), Some(4), Some(4), None, None]
    );
    assert!(get_bundle_for_entry(&[], 0).is_none());
    assert_ne!(bundles[0].group_id, bundles[1].group_id);
    assert_ne!(bundles[0].id, bundles[1].id);
}

#[test]
fn an_entry_is_bundled_exactly_if_it_is_joined_with_a_neighbor() {
    let entries = vec![
        thought_entry(),
        text_entry(),
        thought_entry(),
        mixed_thought_message(2),
        mixed_thought_message(1),
        user_entry(),
        tool_call_entry("a", ToolKind::Read, ToolCallStatus::Failed),
        tool_call_entry("b", ToolKind::Read, ToolCallStatus::Canceled),
        tool_call_entry("c", ToolKind::Read, ToolCallStatus::Rejected),
        tool_call_entry("d", ToolKind::Read, ToolCallStatus::Pending),
    ];
    let bundles = compute_tool_call_bundles(&entries, 0);
    let joined = |ix: usize| {
        ix + 1 < entries.len()
            && is_entry_bundle_eligible(&entries[ix])
            && !is_entry_bundle_terminating(&entries[ix])
            && is_entry_bundle_eligible(&entries[ix + 1])
    };
    for ix in 0..entries.len() {
        let expected = joined(ix) || ix > 0 && joined(ix - 1);
        assert_eq!(get_bundle_for_entry(&bundles, ix).is_some(), expected);
    }
    let ranges: Vec<(usize, usize)> =
        bundles.iter().map(|bundle| (bundle.start_index, bundle.end_index)).collect();
    assert_eq!(ranges, vec![(2, 4), (8, 10)]);
}

#[test]
fn eligibility_depends_on_status_subagent_and_thoughts() {
    let eligible = |status| is_entry_bundle_eligible(&tool_call_entry("a", ToolKind::Read, status));
    assert!(eligible(ToolCallStatus::Pending));
    assert!(eligible(ToolCallStatus::InProgress));
    assert!(eligible(ToolCallStatus::Completed));
    assert!(eligible(ToolCallStatus::Failed));
    assert!(eligible(ToolCallStatus::Rejected));
    assert!(!eligible(ToolCallStatus::WaitingForConfirmation));
    assert!(!eligible(ToolCallStatus::Canceled));
    assert!(!is_entry_bundle_eligible(&tool_call(
        "a",
        ToolKind::Read,
        ToolCallStatus::Completed,
        true
    )));
    assert!(is_entry_bundle_eligible(&thought_entry()));
    assert!(is_entry_bundle_eligible(&mixed_thought_message(1)));
    assert!(!is_entry_bundle_eligible(&text_entry()));
    assert!(!is_entry_bundle_eligible(&message(vec![])));
    assert!(!is_entry_bundle_eligible(&user_entry()));
    assert!(!is_entry_bundle_eligible(&AgentThreadEntry::CompletedPlan));
    assert!(!is_entry_bundle_eligible(&AgentThreadEntry::ContextCompaction));
}

#[test]
fn only_messages_with_text_are_terminating() {
    assert!(is_entry_bundle_terminating(&text_entry()));
    assert!(is_entry_bundle_terminating(&mixed_thought_message(3)));
    assert!(!is_entry_bundle_terminating(&thought_entry()));
    assert!(!is_entry_bundle_terminating(&message(vec![])));
    assert!(!is_entry_bundle_terminating(&user_entry()));
    assert!(!is_entry_bundle_terminating(&tool_call_entry(
        "a",
        ToolKind::Read,
        ToolCallStatus::Completed
    )));
}

#[test]
fn trailing_thoughts_are_those_of_a_mixed_message() {
    let entries = vec![thought_entry(), mixed_thought_message(2), user_entry()];
    // A message of thoughts alone trails nothing.
    assert_eq!(trailing_thought_count(&entries, 0), 0);
    assert_eq!(trailing_thought_count(&entries, 1), 2);
    assert_eq!(trailing_thought_count(&entries, 2), 0);
    assert_eq!(trailing_thought_count(&entries, 3), 0);
    let counts: Vec<usize> = entries.iter().map(entry_thought_count).collect();
    assert_eq!(counts, vec![1, 2, 0]);
}

#[test]
fn thoughts_behind_a_terminating_message_are_trailing() {
    let entries = vec![
        tool_call_entry("a", ToolKind::Fetch, ToolCallStatus::Completed),
        mixed_thought_message(1),
        mixed_thought_message(3),
    ];
    let bundles = compute_tool_call_bundles(&entries, 0);
    assert_eq!(bundles.len(), 1);
    assert_eq!(bundles[0].end_index, 2);
    assert_eq!(bundles[0].thought_count, 1);
    assert_eq!(bundles[0].trailing_thought_count, 3);
    assert_eq!(bundles[0].label, "4 thinking blocks · 1 tool call");
}

#[test]
fn a_message_of_thoughts_alone_trails_no_bundle() {
    let entries = vec![
        tool_call_entry("a", ToolKind::Read, ToolCallStatus::Completed),
        mixed_thought_message(1),
        thought_entry(),
        thought_entry(),
    ];
    let bundles = compute_tool_call_bundles(&entries, 0);
    assert_eq!(bundles.len(), 2);
    assert_eq!(bundles[0].end_index, 2);
    assert_eq!(bundles[0].trailing_thought_count, 0);
    assert_eq!(bundles[0].label, "1 thinking block · 1 tool call");
    assert_eq!(bundles[1].start_index, 2);
    assert_eq!(bundles[1].label, "2 thinking blocks");
}

#[test]
fn bundles_are_identified_by_their_first_tool_call_or_their_place() {
    let entries = vec![
        thought_entry(),
        tool_call_entry("first", ToolKind::Read, ToolCallStatus::Completed),
        tool_call_entry("second", ToolKind::Read, ToolCallStatus::Completed),
        user_entry(),
        thought_entry(),
        thought_entry(),
    ];
    let bundles = compute_tool_call_bundles(&entries, 0);
    let moved = compute_tool_call_bundles(&entries, 7);
    let ids: Vec<String> = bundles.iter().map(id_text).collect();
    assert_eq!(ids, vec!["call first", "thoughts 4"]);
    let moved_ids: Vec<String> = moved.iter().map(id_text).collect();
    assert_eq!(moved_ids, vec!["call first", "thoughts 11"]);
    assert!(bundles[0].id.same_as(&moved[0].id));
    assert!(!bundles[1].id.same_as(&moved[1].id));
    assert!(!bundles[0].id.same_as(&bundles[1].id));
    assert_eq!(bundles[0].id, moved[0].id);
}

#[test]
fn offsets_move_indices_and_group_ids() {
    let entries = vec![user_entry(), thought_entry(), thought_entry()];
    let bundles = compute_tool_call_bundles(&entries, 120);
    assert_eq!(bundles[0].start_index, 121);
    assert_eq!(bundles[0].end_index, 123);
    assert_eq!(bundles[0].group_id, "bundle-header-121");
    let plain = compute_tool_call_bundles(&entries, 0);
    assert_eq!(plain[0].group_id, "bundle-header-1");
    assert_eq!(bundles.len(), plain.len());
    assert_eq!(bundles[0].label, plain[0].label);
    assert_eq!(bundles[0].thought_count, plain[0].thought_count);
    assert_eq!(bundles[0].kind_counts_iter(), plain[0].kind_counts_iter());
}

#[test]
fn kinds_are_counted_and_listed_in_order() {
    let kinds = [
        ToolKind::Other,
        ToolKind::Edit,
        ToolKind::Read,
        ToolKind::Edit,
        ToolKind::SwitchMode,
        ToolKind::Edit,
    ];
    let entries: Vec<AgentThreadEntry> = kinds
        .iter()
        .enumerate()
        .map(|(ix, kind)| {
            tool_call_entry(&format!("call-{}", ix), *kind, ToolCallStatus::Completed)
        })
        .collect();
    let bundles = compute_tool_call_bundles(&entries, 0);
    let counts = bundles[0].kind_counts_iter();
    assert_eq!(
        counts,
        vec![
            (ToolKind::Read, 1),
            (ToolKind::Edit, 3),
            (ToolKind::SwitchMode, 1),
            (ToolKind::Other, 1),
        ]
    );
    let sum: u32 = counts.iter().map(|(_, count)| *count).sum();
    assert_eq!(sum as usize, bundles[0].tool_call_count);
}

#[test]
fn labels_count_thoughts_and_tool_calls() {
    assert_eq!(bundle_label(0, 0), "0 tool calls");
    assert_eq!(bundle_label(0, 1), "1 tool call");
    assert_eq!(bundle_label(0, 2), "2 tool calls");
    assert_eq!(bundle_label(1, 0), "1 thinking block");
    assert_eq!(bundle_label(15, 0), "15 thinking blocks");
    assert_eq!(bundle_label(1, 1), "1 thinking block · 1 tool call");
    assert_eq!(bundle_label(1, 30), "1 thinking block · 30 tool calls");
    assert_eq!(bundle_label(2, 1), "2 thinking blocks · 1 tool call");
    assert_eq!(bundle_label(9, 101), "9 thinking blocks · 101 tool calls");
}

#[test]
fn numbers_are_written_in_decimal() {
    for n in [0, 1, 9, 10, 11, 99, 100, 1234567890, usize::MAX] {
        assert_eq!(decimal_text(n), n.to_string());
    }
}

#[test]
fn kinds_and_sort_keys_determine_each_other() {
    for key in 0..TOOL_KIND_COUNT {
        let kind = tool_kind_from_sort_key(key);
        assert_eq!(tool_kind_sort_key(&kind) as usize, key);
        assert_eq!(tool_kind_info(&kind).0 as usize, key);
    }
    assert_eq!(tool_kind_from_sort_key(TOOL_KIND_COUNT), ToolKind::Other);
    assert_eq!(tool_kind_from_sort_key(usize::MAX), ToolKind::Other);
}

#[test]
fn every_kind_has_its_icon() {
    assert_eq!(tool_kind_info(&ToolKind::Read), (0, IconName::ToolSearch));
    assert_eq!(tool_kind_info(&ToolKind::Edit), (1, IconName::ToolPencil));
    assert_eq!(tool_kind_info(&ToolKind::Delete), (2, IconName::ToolDeleteFile));
    assert_eq!(tool_kind_info(&ToolKind::Move), (3, IconName::ArrowRightLeft));
    assert_eq!(tool_kind_info(&ToolKind::Search), (4, IconName::ToolSearch));
    assert_eq!(tool_kind_info(&ToolKind::Execute), (5, IconName::ToolTerminal));
    assert_eq!(tool_kind_info(&ToolKind::Think), (6, IconName::ToolThink));
    assert_eq!(tool_kind_info(&ToolKind::Fetch), (7, IconName::ToolWeb));
    assert_eq!(tool_kind_info(&ToolKind::SwitchMode), (8, IconName::ArrowRightLeft));
    assert_eq!(tool_kind_info(&ToolKind::Other), (9, IconName::ToolHammer));
}

#[test]
fn copies_of_bundles_and_hints_say_the_same() {
    let entries = vec![
        tool_call_entry("a", ToolKind::Move, ToolCallStatus::Completed),
        mixed_thought_message(2),
    ];
    let bundles = compute_tool_call_bundles(&entries, 5);
    let copy = bundles[0].clone();
    assert_eq!(format!("{:?}", copy), format!("{:?}", bundles[0]));
    for hint in [
        BundleRecomputeHint::NewEntry(3),
        BundleRecomputeHint::EntryUpdated(4),
        BundleRecomputeHint::EntriesRemoved { range: 1..6 },
    ] {
        assert_eq!(format!("{:?}", hint.clone()), format!("{:?}", hint));
    }
}

#[test]
fn tallies_of_ordinary_threads_fit() {
    assert!(check_tallies(&[]));
    let entries = vec![
        thought_entry(),
        tool_call_entry("a", ToolKind::Move, ToolCallStatus::Completed),
        mixed_thought_message(1000),
        mixed_thought_message(2000),
        user_entry(),
    ];
    assert!(check_tallies(&entries));
}
