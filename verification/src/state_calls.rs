//! What each operation on the view state does, said of the call: of what it was given, what it
//! returned, and what the state holds before and after, element by element.

use vstd::prelude::*;

use crate::bundle::{
    bundles_from, compute_tool_call_bundles, tallies_fit, views, BundleId, BundleIdView,
    BundleRecomputeHint, ToolCallBundle,
};
use crate::entry::{Entry, EntryView, Handles};
use crate::recompute::{change_keeps_bundles, hint_in_bounds, recomputed, refresh_bundles};
use crate::recompute_laws::changed_by;
use crate::reindex::{reindexed, reindexed_blocks};
use crate::settings::{ThinkingBlockDisplay, ToolCallDisplay};
use crate::state::{EntryViewState, StateView};
use crate::state_laws::collapsed_bundles_hide_their_entries;
use crate::thread::{AgentThreadEntry, AssistantMessageChunk, EntityId, ThreadStatus, ToolCallId};

verus! {

/// In a new view there are no entries and no bundles, and nothing is expanded.
pub proof fn new_view_shows_nothing<H: Handles>(state: EntryViewState<H>)
    requires
        call_ensures(EntryViewState::<H>::new, (), state),
    ensures
        state@.entries.len() == 0,
        state@.bundles.len() == 0,
        state@.auto_expanded_thinking_block is None,
        state@.auto_expanded_bundle is None,
        forall|key: (usize, usize)| !(#[trigger] state@.expanded_thinking_blocks.contains(key)),
        forall|key: (usize, usize)| !(#[trigger] state@.user_toggled_thinking_blocks.contains(key)),
        forall|entry_ix: usize| !(#[trigger] state@.expanded_compactions.contains(entry_ix)),
        forall|id: Seq<char>| !(#[trigger] state@.expanded_tool_calls.contains(id)),
        forall|id: BundleIdView| !(#[trigger] state@.tool_call_bundle_states.contains(id)),
        forall|id: BundleIdView| !(#[trigger] state@.user_collapsed_bundles.contains(id)),
{
}

/// In every state the auto-expanded bundle is expanded, no bundle that the user has collapsed is,
/// and bundles have at least two entries each and do not overlap.
pub proof fn every_state_is_consistent<H: Handles>(state: StateView<H>)
    requires
        state.wf(),
    ensures
        forall|id: BundleIdView|
            state.auto_expanded_bundle == Some(id) ==> #[trigger]
                state.tool_call_bundle_states.contains(id),
        forall|id: BundleIdView| #[trigger]
            state.user_collapsed_bundles.contains(id) ==> !state.tool_call_bundle_states.contains(
                id,
            ),
        forall|i: int|
            0 <= i < state.bundles.len() ==> 0 <= (#[trigger] state.bundles[i]).start
                && state.bundles[i].start + 2 <= state.bundles[i].end,
        forall|i: int, j: int|
            0 <= i < j < state.bundles.len() ==> (#[trigger] state.bundles[i]).end <= (
            #[trigger] state.bundles[j]).start,
{
    assert forall|id: BundleIdView| #[trigger]
        state.user_collapsed_bundles.contains(id) implies !state.tool_call_bundle_states.contains(
        id,
    ) by {
        if state.tool_call_bundle_states.contains(id) {
            assert(state.user_collapsed_bundles.intersect(state.tool_call_bundle_states).contains(
                id,
            ));
        }
    }
}

/// Expanding, collapsing and toggling a tool call does so, and does nothing else.
pub proof fn tool_calls_expand_and_collapse<H: Handles>(
    expanded: &mut EntryViewState<H>,
    collapsed: &mut EntryViewState<H>,
    toggled: &mut EntryViewState<H>,
    id: ToolCallId,
)
    requires
        call_ensures(EntryViewState::<H>::expand_tool_call, (expanded, id), ()),
        call_ensures(EntryViewState::<H>::collapse_tool_call, (collapsed, &id), ()),
        call_ensures(EntryViewState::<H>::toggle_tool_call_expansion, (toggled, &id), ()),
    ensures
        forall|other: Seq<char>| #[trigger]
            final(expanded)@.expanded_tool_calls.contains(other) == (other == id@ || old(
                expanded,
            )@.expanded_tool_calls.contains(other)),
        forall|other: Seq<char>| #[trigger]
            final(collapsed)@.expanded_tool_calls.contains(other) == (other != id@ && old(
                collapsed,
            )@.expanded_tool_calls.contains(other)),
        forall|other: Seq<char>| #[trigger]
            final(toggled)@.expanded_tool_calls.contains(other) == ((other == id@) != old(
                toggled,
            )@.expanded_tool_calls.contains(other)),
        final(expanded)@ == (StateView {
            expanded_tool_calls: final(expanded)@.expanded_tool_calls,
            ..old(expanded)@
        }),
        final(collapsed)@ == (StateView {
            expanded_tool_calls: final(collapsed)@.expanded_tool_calls,
            ..old(collapsed)@
        }),
        final(toggled)@ == (StateView {
            expanded_tool_calls: final(toggled)@.expanded_tool_calls,
            ..old(toggled)@
        }),
{
}

/// Collapsing and toggling a context compaction does so, and does nothing else.
pub proof fn compactions_expand_and_collapse<H: Handles>(
    collapsed: &mut EntryViewState<H>,
    toggled: &mut EntryViewState<H>,
    entry_ix: usize,
)
    requires
        call_ensures(EntryViewState::<H>::collapse_compaction, (collapsed, entry_ix), ()),
        call_ensures(EntryViewState::<H>::toggle_compaction_expansion, (toggled, entry_ix), ()),
    ensures
        forall|other: usize| #[trigger]
            final(collapsed)@.expanded_compactions.contains(other) == (other != entry_ix && old(
                collapsed,
            )@.expanded_compactions.contains(other)),
        forall|other: usize| #[trigger]
            final(toggled)@.expanded_compactions.contains(other) == ((other == entry_ix) != old(
                toggled,
            )@.expanded_compactions.contains(other)),
        final(collapsed)@ == (StateView {
            expanded_compactions: final(collapsed)@.expanded_compactions,
            ..old(collapsed)@
        }),
        final(toggled)@ == (StateView {
            expanded_compactions: final(toggled)@.expanded_compactions,
            ..old(toggled)@
        }),
{
}

/// What is asked of tool calls, compactions and bundles is answered from the state.
pub proof fn questions_are_answered<H: Handles>(
    state: EntryViewState<H>,
    call: ToolCallId,
    call_expanded: bool,
    entry_ix: usize,
    compaction_expanded: bool,
    bundle: BundleId,
    display: ToolCallDisplay,
    bundle_expanded: bool,
    bundle_collapsed: bool,
    key: (usize, usize),
    followed: bool,
)
    requires
        call_ensures(EntryViewState::<H>::is_tool_call_expanded, (&state, &call), call_expanded),
        call_ensures(
            EntryViewState::<H>::is_compaction_expanded,
            (&state, entry_ix),
            compaction_expanded,
        ),
        call_ensures(
            EntryViewState::<H>::tool_call_bundle_state,
            (&state, &bundle, display),
            bundle_expanded,
        ),
        call_ensures(
            EntryViewState::<H>::is_bundle_user_collapsed,
            (&state, &bundle),
            bundle_collapsed,
        ),
        call_ensures(
            EntryViewState::<H>::is_auto_expanded_thinking_block,
            (&state, key),
            followed,
        ),
    ensures
        call_expanded == state@.expanded_tool_calls.contains(call@),
        compaction_expanded == state@.expanded_compactions.contains(entry_ix),
        bundle_expanded == (display == ToolCallDisplay::Expanded
            || state@.tool_call_bundle_states.contains(bundle@)),
        bundle_collapsed == state@.user_collapsed_bundles.contains(bundle@),
        followed == (state@.auto_expanded_thinking_block == Some(key)),
{
}

/// A thinking block is open if the user has opened it or it is expanded of itself; where blocks are
/// always expanded, unless the user has toggled it; where they are always collapsed, only if the
/// user has. Its height is limited in `Preview` mode alone, while the user has not toggled it.
pub proof fn thinking_block_state_is_answered<H: Handles>(
    state: EntryViewState<H>,
    key: (usize, usize),
    display: ThinkingBlockDisplay,
    answer: (bool, bool),
)
    requires
        call_ensures(EntryViewState::<H>::thinking_block_state, (&state, key, display), answer),
    ensures
        ({
            let by_user = state@.user_toggled_thinking_blocks.contains(key);
            let of_itself = state@.expanded_thinking_blocks.contains(key);
            &&& display == ThinkingBlockDisplay::Auto || display == ThinkingBlockDisplay::Preview
                ==> answer.0 == (by_user || of_itself)
            &&& display == ThinkingBlockDisplay::AlwaysExpanded ==> answer.0 == !by_user
            &&& display == ThinkingBlockDisplay::AlwaysCollapsed ==> answer.0 == by_user
            &&& answer.1 == (display == ThinkingBlockDisplay::Preview && of_itself && !by_user)
        }),
{
}

/// The user's toggle of a thinking block puts it on record as the user's or takes it off, in every
/// mode; except where blocks are always expanded it makes the block expanded with the record and
/// collapsed without. In `Auto` mode a block that is open, whoever opened it, is closed. No other
/// block and nothing else is touched.
pub proof fn thinking_block_is_toggled<H: Handles>(
    state: &mut EntryViewState<H>,
    key: (usize, usize),
    display: ThinkingBlockDisplay,
)
    requires
        call_ensures(
            EntryViewState::<H>::toggle_thinking_block_expansion,
            (state, key, display),
            (),
        ),
    ensures
        ({
            let (before, after) = (old(state)@, final(state)@);
            let by_user = before.user_toggled_thinking_blocks.contains(key);
            let of_itself = before.expanded_thinking_blocks.contains(key);
            let stays = if display == ThinkingBlockDisplay::Auto {
                !by_user && !of_itself
            } else {
                !by_user
            };
            &&& after.user_toggled_thinking_blocks.contains(key) == stays
            &&& after.expanded_thinking_blocks.contains(key) == if display
                == ThinkingBlockDisplay::AlwaysExpanded {
                of_itself
            } else {
                stays
            }
            &&& forall|other: (usize, usize)|
                other != key ==> #[trigger] after.user_toggled_thinking_blocks.contains(other)
                    == before.user_toggled_thinking_blocks.contains(other)
            &&& forall|other: (usize, usize)|
                other != key ==> #[trigger] after.expanded_thinking_blocks.contains(other)
                    == before.expanded_thinking_blocks.contains(other)
            &&& after == (StateView {
                user_toggled_thinking_blocks: after.user_toggled_thinking_blocks,
                expanded_thinking_blocks: after.expanded_thinking_blocks,
                ..before
            })
        }),
{
}

/// Whether `key` is the last chunk of the last entry, and that chunk is a thought.
pub open spec fn streams_at(entries: Seq<AgentThreadEntry>, key: (usize, usize)) -> bool {
    &&& entries.len() == key.0 + 1
    &&& entries[key.0 as int] matches AgentThreadEntry::AssistantMessage(message)
    &&& message.chunks@.len() == key.1 + 1
    &&& message.chunks@[key.1 as int] == AssistantMessageChunk::Thought
}

/// In `Auto` and in `Preview` mode a thought that streams in is followed from then on. It is opened
/// as soon as it is followed, and not again. Every other thinking block stays as it is, in every
/// mode of display, and nothing else is touched.
pub proof fn streaming_thought_is_followed<H: Handles>(
    state: &mut EntryViewState<H>,
    entries: &[AgentThreadEntry],
    display: ThinkingBlockDisplay,
    changed: bool,
    key: (usize, usize),
)
    requires
        call_ensures(
            EntryViewState::<H>::auto_expand_streaming_thought,
            (state, entries, display),
            changed,
        ),
        display == ThinkingBlockDisplay::Auto || display == ThinkingBlockDisplay::Preview,
        streams_at(entries@, key),
    ensures
        ({
            let (before, after) = (old(state)@, final(state)@);
            &&& changed == (before.auto_expanded_thinking_block != Some(key))
            &&& after.auto_expanded_thinking_block == Some(key)
            &&& changed ==> after.expanded_thinking_blocks.contains(key)
            &&& !changed ==> after.expanded_thinking_blocks.contains(key)
                == before.expanded_thinking_blocks.contains(key)
            &&& forall|other: (usize, usize)|
                other != key ==> #[trigger] after.expanded_thinking_blocks.contains(other)
                    == before.expanded_thinking_blocks.contains(other)
            &&& forall|other: (usize, usize), any: ThinkingBlockDisplay|
                other != key ==> #[trigger] after.block_state(other, any) == before.block_state(
                    other,
                    any,
                )
            &&& after == (StateView {
                auto_expanded_thinking_block: after.auto_expanded_thinking_block,
                expanded_thinking_blocks: after.expanded_thinking_blocks,
                ..before
            })
        }),
{
    let (before, after) = (old(state)@, final(state)@);
    assert forall|other: (usize, usize), any: ThinkingBlockDisplay|
        other != key implies #[trigger] after.block_state(other, any) == before.block_state(
        other,
        any,
    ) by {
        assert(after.expanded_thinking_blocks.contains(other)
            == before.expanded_thinking_blocks.contains(other));
    }
}

/// In `Auto` and in `Preview` mode, where no thought streams in, none is followed from then on. In
/// `Auto` mode the one that was is closed, unless the user has toggled it. Every other thinking
/// block stays as it is, and nothing else is touched.
pub proof fn thought_that_has_streamed_in_is_let_go<H: Handles>(
    state: &mut EntryViewState<H>,
    entries: &[AgentThreadEntry],
    display: ThinkingBlockDisplay,
    changed: bool,
)
    requires
        call_ensures(
            EntryViewState::<H>::auto_expand_streaming_thought,
            (state, entries, display),
            changed,
        ),
        display == ThinkingBlockDisplay::Auto || display == ThinkingBlockDisplay::Preview,
        forall|key: (usize, usize)| !(#[trigger] streams_at(entries@, key)),
        entries@.len() <= usize::MAX,
    ensures
        ({
            let (before, after) = (old(state)@, final(state)@);
            &&& changed == (before.auto_expanded_thinking_block is Some)
            &&& after.auto_expanded_thinking_block is None
            &&& forall|other: (usize, usize)| #[trigger]
                after.expanded_thinking_blocks.contains(other)
                    == (before.expanded_thinking_blocks.contains(other) && !(display
                    == ThinkingBlockDisplay::Auto && before.auto_expanded_thinking_block == Some(
                    other,
                ) && !before.user_toggled_thinking_blocks.contains(other)))
            &&& after == (StateView {
                auto_expanded_thinking_block: after.auto_expanded_thinking_block,
                expanded_thinking_blocks: after.expanded_thinking_blocks,
                ..before
            })
        }),
{
    if entries@.len() > 0 {
        if let AgentThreadEntry::AssistantMessage(message) = entries@.last() {
            if message.chunks@.len() > 0 {
                let key = ((entries@.len() - 1) as usize, (message.chunks@.len() - 1) as usize);
                assert(message.chunks.len() == message.chunks@.len());
                assert(!streams_at(entries@, key));
            }
        }
    }
}

/// Where thinking blocks are always expanded or always collapsed, no thought is followed.
pub proof fn fixed_thinking_blocks_follow_nothing<H: Handles>(
    state: &mut EntryViewState<H>,
    entries: &[AgentThreadEntry],
    display: ThinkingBlockDisplay,
    changed: bool,
)
    requires
        call_ensures(
            EntryViewState::<H>::auto_expand_streaming_thought,
            (state, entries, display),
            changed,
        ),
        display == ThinkingBlockDisplay::AlwaysExpanded || display
            == ThinkingBlockDisplay::AlwaysCollapsed,
    ensures
        !changed,
        final(state)@ == old(state)@,
{
}

/// Letting go of a thought forgets which one was followed, and nothing else.
pub proof fn followed_thought_is_forgotten<H: Handles>(state: &mut EntryViewState<H>)
    requires
        call_ensures(EntryViewState::<H>::clear_auto_expanded_thinking, (state,), ()),
    ensures
        final(state)@.auto_expanded_thinking_block is None,
        final(state)@ == (StateView { auto_expanded_thinking_block: None, ..old(state)@ }),
{
}

/// The user's toggle of a bundle expands it if it was collapsed, and collapses it if it was
/// expanded; where bundles are always expanded it does nothing. A bundle that is expanded is off the
/// record of what the user collapsed; one that is collapsed is put on it if it was auto-expanded, or
/// if the thread generates in `Auto` mode. An auto-expanded bundle that is collapsed is no longer
/// taken for one. No other bundle and nothing else is touched.
pub proof fn bundle_is_toggled<H: Handles>(
    state: &mut EntryViewState<H>,
    bundle: BundleId,
    status: ThreadStatus,
    display: ToolCallDisplay,
)
    requires
        call_ensures(
            EntryViewState::<H>::toggle_tool_call_bundle_expansion,
            (state, &bundle, status, display),
            (),
        ),
    ensures
        ({
            let (before, after) = (old(state)@, final(state)@);
            let id = bundle@;
            let was_expanded = before.tool_call_bundle_states.contains(id);
            let was_auto = before.auto_expanded_bundle == Some(id);
            &&& display == ToolCallDisplay::Expanded ==> after == before
            &&& display != ToolCallDisplay::Expanded ==> {
                &&& after.tool_call_bundle_states.contains(id) == !was_expanded
                &&& after.user_collapsed_bundles.contains(id) == (was_expanded && (was_auto || (
                status == ThreadStatus::Generating && display == ToolCallDisplay::Auto)
                    || before.user_collapsed_bundles.contains(id)))
                &&& after.auto_expanded_bundle == if was_auto && was_expanded {
                    None
                } else {
                    before.auto_expanded_bundle
                }
            }
            &&& forall|other: BundleIdView|
                other != id ==> #[trigger] after.tool_call_bundle_states.contains(other)
                    == before.tool_call_bundle_states.contains(other)
            &&& forall|other: BundleIdView|
                other != id ==> #[trigger] after.user_collapsed_bundles.contains(other)
                    == before.user_collapsed_bundles.contains(other)
            &&& after == (StateView {
                tool_call_bundle_states: after.tool_call_bundle_states,
                user_collapsed_bundles: after.user_collapsed_bundles,
                auto_expanded_bundle: after.auto_expanded_bundle,
                ..before
            })
        }),
{
}

/// While the thread generates in `Auto` mode, the latest bundle is expanded whenever it is neither
/// expanded nor itself collapsed by the user, whatever else the user has collapsed; and only then
/// anything happens. The bundle that was auto-expanded before is collapsed, all others stay as they
/// are, and what the user collapsed stays on record.
pub proof fn latest_bundle_is_auto_expanded<H: Handles>(
    state: &mut EntryViewState<H>,
    status: ThreadStatus,
    display: ToolCallDisplay,
    changed: bool,
)
    requires
        call_ensures(
            EntryViewState::<H>::auto_expand_streaming_bundles,
            (state, status, display),
            changed,
        ),
    ensures
        ({
            let (before, after) = (old(state)@, final(state)@);
            let latest = before.bundles[before.bundles.len() - 1].id;
            &&& changed <==> display == ToolCallDisplay::Auto && status == ThreadStatus::Generating
                && before.bundles.len() > 0 && !before.tool_call_bundle_states.contains(latest)
                && !before.user_collapsed_bundles.contains(latest)
            &&& !changed ==> after == before
            &&& changed ==> {
                &&& after.auto_expanded_bundle == Some(latest)
                &&& forall|id: BundleIdView| #[trigger]
                    after.tool_call_bundle_states.contains(id) == (id == latest || (
                    before.tool_call_bundle_states.contains(id) && before.auto_expanded_bundle
                        != Some(id)))
                &&& after == (StateView {
                    tool_call_bundle_states: after.tool_call_bundle_states,
                    auto_expanded_bundle: after.auto_expanded_bundle,
                    ..before
                })
            }
        }),
{
}

/// Once streaming has stopped, the bundle that was auto-expanded is collapsed and all others stay as
/// they are; what the user collapsed is off the record. Where bundles are always expanded, nothing
/// happens. A change is reported exactly if there was such a bundle or something on record.
pub proof fn auto_expanded_bundle_is_compacted<H: Handles>(
    state: &mut EntryViewState<H>,
    display: ToolCallDisplay,
    changed: bool,
)
    requires
        call_ensures(EntryViewState::<H>::auto_compact_bundles, (state, display), changed),
    ensures
        ({
            let (before, after) = (old(state)@, final(state)@);
            &&& display == ToolCallDisplay::Expanded ==> !changed && after == before
            &&& display != ToolCallDisplay::Expanded ==> {
                &&& changed <==> before.auto_expanded_bundle is Some || exists|id: BundleIdView|
                    before.user_collapsed_bundles.contains(id)
                &&& after.auto_expanded_bundle is None
                &&& forall|id: BundleIdView| #[trigger]
                    after.tool_call_bundle_states.contains(id)
                        == (before.tool_call_bundle_states.contains(id)
                        && before.auto_expanded_bundle != Some(id))
                &&& forall|id: BundleIdView| !(#[trigger] after.user_collapsed_bundles.contains(id))
                &&& after == (StateView {
                    tool_call_bundle_states: after.tool_call_bundle_states,
                    user_collapsed_bundles: after.user_collapsed_bundles,
                    auto_expanded_bundle: after.auto_expanded_bundle,
                    ..before
                })
            }
        }),
{
    let before = old(state)@;
    if !(before.user_collapsed_bundles =~= Set::<BundleIdView>::empty()) {
        let id = choose|id: BundleIdView| before.user_collapsed_bundles.contains(id);
        assert(before.user_collapsed_bundles.contains(id));
    }
}

/// An entry is hidden exactly if it stands behind the first entry of a bundle that is collapsed.
pub proof fn hidden_entries_are_told<H: Handles>(
    state: EntryViewState<H>,
    entry_ix: usize,
    display: ToolCallDisplay,
    hidden: bool,
)
    requires
        state@.wf(),
        call_ensures(
            EntryViewState::<H>::is_entry_in_collapsed_bundle,
            (&state, entry_ix, display),
            hidden,
        ),
    ensures
        hidden <==> display != ToolCallDisplay::Expanded && exists|i: int|
            0 <= i < state@.bundles.len() && (#[trigger] state@.bundles[i]).start < entry_ix
                < state@.bundles[i].end && !state@.tool_call_bundle_states.contains(
                state@.bundles[i].id,
            ),
{
    collapsed_bundles_hide_their_entries(state@, entry_ix as int, display);
}

/// The view of an entry is found at its index, and none beyond the last.
pub proof fn entries_are_found<H: Handles>(
    state: EntryViewState<H>,
    index: usize,
    entry: Option<&Entry<H>>,
)
    requires
        call_ensures(EntryViewState::<H>::entry, (&state, index), entry),
    ensures
        entry is Some <==> index < state@.entries.len(),
        entry matches Some(view) ==> view@ == state@.entries[index as int],
{
}

/// When the font size changes, exactly the diff editors of tool calls are listed, each of them once.
pub proof fn diff_editors_are_listed<H: Handles>(
    state: EntryViewState<H>,
    editors: Vec<(usize, EntityId)>,
)
    requires
        call_ensures(EntryViewState::<H>::agent_ui_font_size_changed, (&state,), editors),
    ensures
        forall|i: int, j: int|
            0 <= i < j < editors@.len() ==> #[trigger] editors@[i] != #[trigger] editors@[j],
        forall|index: usize, diff: EntityId| #[trigger]
            editors@.contains((index, diff)) <==> index < state@.entries.len() && (
            state@.entries[index as int] matches EntryView::ToolCall { content, .. }
                && content.contains_key(diff) && content[diff] is DiffEditor),
{
}

/// The entries before the removed ones keep their views and their indices, those behind keep their
/// views and move up by as many as were removed. Whether a compaction is expanded and how a thinking
/// block is shown moves along with the entry; of removed entries nothing is left. Nothing else is
/// touched.
pub proof fn entries_are_removed<H: Handles>(
    state: &mut EntryViewState<H>,
    range: std::ops::Range<usize>,
)
    requires
        range.start <= range.end <= old(state)@.entries.len(),
        call_ensures(EntryViewState::<H>::remove, (state, range), ()),
    ensures
        ({
            let (before, after) = (old(state)@, final(state)@);
            let count = range.end - range.start;
            &&& after.entries.len() == before.entries.len() - count
            &&& forall|i: int|
                0 <= i < after.entries.len() ==> #[trigger] after.entries[i]
                    == before.entries[if i < range.start { i } else { i + count }]
            &&& forall|to: usize| #[trigger]
                after.expanded_compactions.contains(to) <==> exists|from: usize| #[trigger]
                    before.expanded_compactions.contains(from) && moves(range, from, to)
            &&& forall|to: usize, chunk_ix: usize| #[trigger]
                after.expanded_thinking_blocks.contains((to, chunk_ix)) <==> exists|from: usize|
                    #[trigger] before.expanded_thinking_blocks.contains((from, chunk_ix)) && moves(
                        range,
                        from,
                        to,
                    )
            &&& forall|to: usize, chunk_ix: usize| #[trigger]
                after.user_toggled_thinking_blocks.contains((to, chunk_ix)) <==> exists|from: usize|
                    #[trigger] before.user_toggled_thinking_blocks.contains((from, chunk_ix))
                        && moves(range, from, to)
            &&& forall|to: usize, chunk_ix: usize|
                after.auto_expanded_thinking_block == Some((to, chunk_ix)) <==> exists|from: usize|
                    before.auto_expanded_thinking_block == Some((from, chunk_ix))
                        && #[trigger] moves(range, from, to)
            &&& after == (StateView {
                entries: after.entries,
                expanded_compactions: after.expanded_compactions,
                expanded_thinking_blocks: after.expanded_thinking_blocks,
                user_toggled_thinking_blocks: after.user_toggled_thinking_blocks,
                auto_expanded_thinking_block: after.auto_expanded_thinking_block,
                ..before
            })
        }),
{
    let (before, after) = (old(state)@, final(state)@);
    let (start, end) = (range.start as int, range.end as int);
    assert forall|from: usize, to: usize| #[trigger] moves(range, from, to) == (reindexed(
        from as int,
        start,
        end,
    ) == Some(to as int)) by {}
    assert forall|to: usize| #[trigger]
        after.expanded_compactions.contains(to) <==> exists|from: usize| #[trigger]
            before.expanded_compactions.contains(from) && moves(range, from, to) by {
        if after.expanded_compactions.contains(to) {
            let from = choose|from: usize| #[trigger]
                before.expanded_compactions.contains(from) && reindexed(from as int, start, end)
                    == Some(to as int);
            assert(moves(range, from, to));
        }
    }
    blocks_move(before.expanded_thinking_blocks, range);
    blocks_move(before.user_toggled_thinking_blocks, range);
    assert forall|to: usize, chunk_ix: usize|
        after.auto_expanded_thinking_block == Some((to, chunk_ix)) <==> exists|from: usize|
            before.auto_expanded_thinking_block == Some((from, chunk_ix)) && #[trigger] moves(
                range,
                from,
                to,
            ) by {
        if let Some((from, _)) = before.auto_expanded_thinking_block {
            assert(moves(range, from, to) == (reindexed(from as int, start, end) == Some(
                to as int,
            )));
        }
    }
}

proof fn blocks_move(blocks: Set<(usize, usize)>, range: std::ops::Range<usize>)
    requires
        range.start <= range.end,
    ensures
        forall|to: usize, chunk_ix: usize| #[trigger]
            reindexed_blocks(blocks, range.start as int, range.end as int).contains((to, chunk_ix))
                <==> exists|from: usize| #[trigger]
                blocks.contains((from, chunk_ix)) && moves(range, from, to),
{
    let (start, end) = (range.start as int, range.end as int);
    assert forall|from: usize, to: usize| #[trigger] moves(range, from, to) == (reindexed(
        from as int,
        start,
        end,
    ) == Some(to as int)) by {}
    assert forall|to: usize, chunk_ix: usize| #[trigger]
        reindexed_blocks(blocks, start, end).contains((to, chunk_ix)) <==> exists|from: usize|
            #[trigger] blocks.contains((from, chunk_ix)) && moves(range, from, to) by {
        if reindexed_blocks(blocks, start, end).contains((to, chunk_ix)) {
            let from = choose|from: usize| #[trigger]
                blocks.contains((from, chunk_ix)) && reindexed(from as int, start, end) == Some(
                    to as int,
                );
            assert(moves(range, from, to));
        }
        if exists|from: usize| #[trigger]
            blocks.contains((from, chunk_ix)) && moves(range, from, to) {
            let from = choose|from: usize| #[trigger]
                blocks.contains((from, chunk_ix)) && moves(range, from, to);
            assert(blocks.contains((from, chunk_ix)));
            assert(reindexed(from as int, start, end) == Some(to as int));
        }
    }
}

/// Whether the entry at `from` is at `to` once some entries are removed.
pub open spec fn moves(range: std::ops::Range<usize>, from: usize, to: usize) -> bool {
    ||| from < range.start && to == from
    ||| range.end <= from && to == from - (range.end - range.start)
}

/// Recomputing the bundles keeps what is known of the bundles that exist then and drops what is
/// known of all others; it touches nothing else. Where the update of a tool call cannot touch any
/// bundle, nothing happens at all.
pub proof fn bundles_are_recomputed<H: Handles>(
    state: &mut EntryViewState<H>,
    bundles: &[ToolCallBundle],
    entries: &[AgentThreadEntry],
    hint: Option<BundleRecomputeHint>,
    keeps: bool,
    fresh: Vec<ToolCallBundle>,
)
    requires
        old(state)@.wf(),
        views(bundles@) == old(state)@.bundles,
        tallies_fit(entries@),
        hint_in_bounds(old(state)@.bundles, entries@, hint),
        call_ensures(change_keeps_bundles, (bundles, entries, &hint), keeps),
        !keeps ==> call_ensures(refresh_bundles, (bundles, entries, &hint), fresh),
        call_ensures(EntryViewState::<H>::recompute_bundles, (state, entries, hint), ()),
    ensures
        ({
            let (before, after) = (old(state)@, final(state)@);
            &&& keeps ==> after == before
            &&& !keeps ==> {
                &&& after.bundles == views(fresh@)
                &&& forall|id: BundleIdView| #[trigger]
                    after.tool_call_bundle_states.contains(id)
                        == (before.tool_call_bundle_states.contains(id) && exists|i: int|
                        0 <= i < after.bundles.len() && (#[trigger] after.bundles[i]).id == id)
                &&& forall|id: BundleIdView| #[trigger]
                    after.user_collapsed_bundles.contains(id)
                        == (before.user_collapsed_bundles.contains(id) && exists|i: int|
                        0 <= i < after.bundles.len() && (#[trigger] after.bundles[i]).id == id)
                &&& forall|id: BundleIdView|
                    after.auto_expanded_bundle == Some(id) <==> before.auto_expanded_bundle == Some(
                        id,
                    ) && exists|i: int|
                        0 <= i < after.bundles.len() && (#[trigger] after.bundles[i]).id == id
                &&& after == (StateView {
                    bundles: after.bundles,
                    tool_call_bundle_states: after.tool_call_bundle_states,
                    user_collapsed_bundles: after.user_collapsed_bundles,
                    auto_expanded_bundle: after.auto_expanded_bundle,
                    ..before
                })
            }
        }),
{
    let (before, after) = (old(state)@, final(state)@);
    let pruned = StateView {
        bundles: recomputed(before.bundles, entries@, hint),
        ..before
    };
    if !keeps {
        assert(after == pruned.pruned());
    }
}

/// Computed anew without a hint, or with one after a single change of entries whose bundles were
/// known, the bundles are what computing them of all entries gives.
pub proof fn recomputed_bundles_are_all_bundles<H: Handles>(
    state: &mut EntryViewState<H>,
    before: &[AgentThreadEntry],
    bundles_before: Vec<ToolCallBundle>,
    entries: &[AgentThreadEntry],
    bundles_after: Vec<ToolCallBundle>,
    hint: Option<BundleRecomputeHint>,
)
    requires
        tallies_fit(before@),
        tallies_fit(entries@),
        hint_in_bounds(old(state)@.bundles, entries@, hint),
        call_ensures(compute_tool_call_bundles, (before, 0usize), bundles_before),
        call_ensures(compute_tool_call_bundles, (entries, 0usize), bundles_after),
        old(state)@.bundles == views(bundles_before@),
        call_ensures(EntryViewState::<H>::recompute_bundles, (state, entries, hint), ()),
    ensures
        hint is None ==> final(state)@.bundles == views(bundles_after@),
        hint matches Some(BundleRecomputeHint::NewEntry(index)) ==> (entries@ == before@.push(
            entries@[index as int],
        ) && index == before@.len() ==> final(state)@.bundles == views(bundles_after@)),
        hint matches Some(BundleRecomputeHint::EntryUpdated(index)) ==> (index < before@.len()
            && entries@ == before@.update(index as int, entries@[index as int]) && (
        entries@[index as int] matches AgentThreadEntry::ToolCall(call) ==> (
        before@[index as int] matches AgentThreadEntry::ToolCall(earlier) && earlier.id@ == call.id@
            && earlier.kind == call.kind)) ==> final(state)@.bundles == views(bundles_after@)),
        hint matches Some(BundleRecomputeHint::EntriesRemoved { range }) ==> (range.start
            <= range.end <= before@.len() && entries@ == before@.take(range.start as int)
            + before@.skip(range.end as int) ==> final(state)@.bundles == views(bundles_after@)),
{
    assert(bundles_from(before@, 0, 0) == old(state)@.bundles);
    match hint {
        Some(BundleRecomputeHint::NewEntry(index)) => {
            if entries@ == before@.push(entries@[index as int]) && index == before@.len() {
                assert(before@ =~= entries@.take(index as int));
                assert(changed_by(before@, entries@, hint->0));
            }
        },
        Some(change) => {
            assert(changed_by(before@, entries@, change) ==> final(state)@.bundles
                == bundles_from(entries@, 0, 0));
        },
        None => {},
    }
}

} // verus!
