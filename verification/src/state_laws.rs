//! What holds of the state of a view across its transitions.

use vstd::prelude::*;

use crate::bundle::{BundleIdView, BundleRecomputeHint};
use crate::entry::Handles;
use crate::recompute::{
    affected, bundle_at, bundle_at_is, hint_in_bounds, holds, keeps_bundles, recomputed,
    recomputed_is_ordered,
};
use crate::reindex::{reindexed, reindexed_blocks, reindexed_set};
use crate::settings::{ThinkingBlockDisplay, ToolCallDisplay};
use crate::splice::{beyond_is_beyond, ends_by, first_beyond};
use crate::state::{bundle_ids, streaming_block, toggled, StateView};
use crate::thread::{AgentThreadEntry, ThreadStatus};

verus! {

/// Toggling takes an element out or puts it in, leaves all others alone, and undoes itself.
pub proof fn toggling_twice_changes_nothing<K>(set: Set<K>, key: K)
    ensures
        toggled(set, key).contains(key) == !set.contains(key),
        forall|other: K|
            other != key ==> #[trigger] toggled(set, key).contains(other) == set.contains(other),
        toggled(toggled(set, key), key) == set,
{
    assert(toggled(toggled(set, key), key) =~= set);
}

/// Except in `Preview` mode, toggling a thinking block opens it if it was closed and closes it if
/// it was open. No mode limits the height of a block that was just toggled, and other blocks are
/// left alone.
pub proof fn toggling_flips_a_thinking_block<H: Handles>(
    state: StateView<H>,
    key: (usize, usize),
    display: ThinkingBlockDisplay,
)
    ensures
        display != ThinkingBlockDisplay::Preview ==> state.block_toggled(key, display).block_state(
            key,
            display,
        ) == (!state.block_state(key, display).0, false),
        forall|other: (usize, usize), any: ThinkingBlockDisplay|
            other != key ==> #[trigger] state.block_toggled(key, display).block_state(other, any)
                == state.block_state(other, any),
{
}

/// In `Preview` mode, toggling a thinking block of limited height lifts the limit, toggling one
/// without limit closes it, and toggling a closed one opens it without limit.
pub proof fn toggling_cycles_a_previewed_block<H: Handles>(
    state: StateView<H>,
    key: (usize, usize),
)
    ensures
        ({
            let display = ThinkingBlockDisplay::Preview;
            let (is_open, is_constrained) = state.block_state(key, display);
            state.block_toggled(key, display).block_state(key, display) == (
                !is_open || is_constrained,
                false,
            )
        }),
{
}

/// A thought that begins to stream in is opened in `Auto` and in `Preview` mode; in `Preview` mode
/// at a limited height unless the user has toggled it. From then on it is left as it is while it
/// streams, so that the user can close it.
pub proof fn streaming_thought_is_opened_once<H: Handles>(
    state: StateView<H>,
    entries: Seq<AgentThreadEntry>,
    display: ThinkingBlockDisplay,
    key: (usize, usize),
)
    requires
        display == ThinkingBlockDisplay::Auto || display == ThinkingBlockDisplay::Preview,
        streaming_block(entries) == Some(key),
    ensures
        ({
            let (after, changed) = state.thought_streamed(entries, display);
            &&& after.auto_expanded_thinking_block == Some(key)
            &&& if state.auto_expanded_thinking_block == Some(key) {
                !changed && after == state
            } else {
                changed && after.block_state(key, display) == (
                    true,
                    display == ThinkingBlockDisplay::Preview
                        && !state.user_toggled_thinking_blocks.contains(key),
                )
            }
        }),
{
}

/// Once a thought has streamed in, its block is closed in `Auto` mode unless the user has toggled
/// it, and left as it is in `Preview` mode. Other blocks are left alone.
pub proof fn streamed_thought_is_let_go<H: Handles>(
    state: StateView<H>,
    entries: Seq<AgentThreadEntry>,
    display: ThinkingBlockDisplay,
    key: (usize, usize),
)
    requires
        display == ThinkingBlockDisplay::Auto || display == ThinkingBlockDisplay::Preview,
        streaming_block(entries) is None,
        state.auto_expanded_thinking_block == Some(key),
    ensures
        ({
            let (after, changed) = state.thought_streamed(entries, display);
            &&& changed
            &&& after.auto_expanded_thinking_block is None
            &&& display == ThinkingBlockDisplay::Auto ==> after.block_state(key, display) == (
                state.user_toggled_thinking_blocks.contains(key),
                false,
            )
            &&& display == ThinkingBlockDisplay::Preview ==> after.block_state(key, display)
                == state.block_state(key, display)
            &&& forall|other: (usize, usize)|
                other != key ==> #[trigger] after.block_state(other, display) == state.block_state(
                    other,
                    display,
                )
        }),
{
}

/// Looking for a streaming thought reports a change exactly if there is one, and looking again
/// finds nothing more to do.
pub proof fn streaming_thought_settles<H: Handles>(
    state: StateView<H>,
    entries: Seq<AgentThreadEntry>,
    display: ThinkingBlockDisplay,
)
    ensures
        ({
            let (after, changed) = state.thought_streamed(entries, display);
            &&& changed == (after != state)
            &&& after.thought_streamed(entries, display) == (after, false)
        }),
{
}

/// Toggling a bundle expands it if it was collapsed and collapses it if it was expanded, except
/// where all bundles are shown expanded. Other bundles are left alone, and toggling once more
/// leaves the same bundles expanded as before.
pub proof fn toggling_flips_a_bundle<H: Handles>(
    state: StateView<H>,
    id: BundleIdView,
    status: ThreadStatus,
    later_status: ThreadStatus,
    display: ToolCallDisplay,
)
    ensures
        ({
            let after = state.bundle_toggled(id, status, display);
            &&& display == ToolCallDisplay::Expanded ==> after == state
            &&& display != ToolCallDisplay::Expanded ==> after.bundle_expanded(id, display)
                == !state.bundle_expanded(id, display)
            &&& forall|other: BundleIdView|
                other != id ==> #[trigger] after.bundle_expanded(other, display)
                    == state.bundle_expanded(other, display)
            &&& after.bundle_toggled(id, later_status, display).tool_call_bundle_states
                == state.tool_call_bundle_states
        }),
{
    let after = state.bundle_toggled(id, status, display);
    assert(after.bundle_toggled(id, later_status, display).tool_call_bundle_states
        =~= state.tool_call_bundle_states);
}

/// While nothing streams, and where bundles are not auto-expanded, opening a bundle and collapsing
/// it again leaves no trace: the state is the one before, if the user had not collapsed the bundle
/// earlier.
pub proof fn toggling_outside_streaming_leaves_no_trace<H: Handles>(
    state: StateView<H>,
    id: BundleIdView,
    status: ThreadStatus,
    display: ToolCallDisplay,
)
    requires
        state.wf(),
        status != ThreadStatus::Generating || display != ToolCallDisplay::Auto,
        !state.tool_call_bundle_states.contains(id),
        !state.user_collapsed_bundles.contains(id),
    ensures
        state.bundle_toggled(id, status, display).bundle_toggled(id, status, display) == state,
{
    assert(state.bundle_toggled(id, status, display).bundle_toggled(id, status, display) =~= state);
}

/// Expanding the latest bundle collapses the one that had been expanded so before and leaves all
/// others alone; and nothing is left to expand until something else happens.
pub proof fn auto_expansion_settles<H: Handles>(
    state: StateView<H>,
    status: ThreadStatus,
    display: ToolCallDisplay,
    id: BundleIdView,
)
    requires
        state.bundle_to_expand(status, display) == Some(id),
    ensures
        ({
            let after = state.bundle_auto_expanded(id);
            &&& after.bundle_expanded(id, display)
            &&& state.auto_expanded_bundle matches Some(before) ==> before == id
                || !after.bundle_expanded(before, display)
            &&& forall|other: BundleIdView|
                other != id && state.auto_expanded_bundle != Some(other)
                    ==> #[trigger] after.bundle_expanded(other, display)
                    == state.bundle_expanded(other, display)
            &&& after.bundle_to_expand(status, display) is None
        }),
{
}

/// A bundle that the user has collapsed during streaming, whoever had expanded it, is not
/// auto-expanded again, not even after the bundles are recomputed, until streaming stops; then it
/// may be, if the thread generates and it is the latest one.
pub proof fn user_collapse_resists_auto_expansion<H: Handles>(
    state: StateView<H>,
    id: BundleIdView,
    status: ThreadStatus,
    display: ToolCallDisplay,
    entries: Seq<AgentThreadEntry>,
    hint: Option<BundleRecomputeHint>,
)
    requires
        state.wf(),
        display != ToolCallDisplay::Expanded,
        state.bundle_expanded(id, display),
        state.collapse_is_recorded(id, status, display),
    ensures
        ({
            let collapsed = state.bundle_toggled(id, status, display);
            let later = collapsed.bundles_recomputed(entries, hint);
            let next_turn = collapsed.bundles_compacted(display);
            &&& !collapsed.bundle_expanded(id, display)
            &&& collapsed.user_collapsed_bundles.contains(id)
            &&& collapsed.auto_expanded_bundle != Some(id)
            &&& forall|later_status: ThreadStatus, any: ToolCallDisplay| #[trigger]
                collapsed.bundle_to_expand(later_status, any) != Some(id)
            &&& forall|later_status: ThreadStatus, any: ToolCallDisplay| #[trigger]
                later.bundle_to_expand(later_status, any) != Some(id)
            &&& !next_turn.user_collapsed_bundles.contains(id)
            &&& next_turn.bundles.len() > 0 && next_turn.bundles.last().id == id
                ==> next_turn.bundle_to_expand(ThreadStatus::Generating, ToolCallDisplay::Auto)
                == Some(id)
        }),
{
    let collapsed = state.bundle_toggled(id, status, display);
    let later = collapsed.bundles_recomputed(entries, hint);
    assert forall|later_status: ThreadStatus, any: ToolCallDisplay| #[trigger]
        later.bundle_to_expand(later_status, any) != Some(id) by {
        if later.bundles.len() > 0 && later.bundles.last().id == id && !keeps_bundles(
            collapsed.bundles,
            entries,
            hint,
        ) {
            let last: int = later.bundles.len() - 1;
            assert(later.bundles[last].id == id);
            assert(bundle_ids(later.bundles).contains(id));
        }
    }
}

/// Compacting collapses the bundle that had been auto-expanded and leaves all others as they are,
/// those included that the user expanded; compacting again changes nothing.
pub proof fn compaction_spares_the_users_bundles<H: Handles>(
    state: StateView<H>,
    display: ToolCallDisplay,
)
    ensures
        ({
            let after = state.bundles_compacted(display);
            &&& display != ToolCallDisplay::Expanded ==> after.auto_expanded_bundle is None
            &&& display != ToolCallDisplay::Expanded ==> (state.auto_expanded_bundle matches Some(
                id,
            ) ==> !after.bundle_expanded(id, display))
            &&& forall|other: BundleIdView|
                state.auto_expanded_bundle != Some(other) ==> #[trigger] after.bundle_expanded(
                    other,
                    display,
                ) == state.bundle_expanded(other, display)
            &&& after.bundles_compacted(display) == after
        }),
{
    let after = state.bundles_compacted(display);
    assert(after.bundles_compacted(display) =~= after);
}

/// Compacting undoes an auto-expansion: the same bundles are expanded as before.
pub proof fn compaction_undoes_auto_expansion<H: Handles>(
    state: StateView<H>,
    status: ThreadStatus,
    display: ToolCallDisplay,
    id: BundleIdView,
)
    requires
        state.auto_expanded_bundle is None,
        state.bundle_to_expand(status, display) == Some(id),
    ensures
        state.bundle_auto_expanded(id).bundles_compacted(display).tool_call_bundle_states
            == state.tool_call_bundle_states,
{
    assert(state.bundle_auto_expanded(id).bundles_compacted(display).tool_call_bundle_states
        =~= state.tool_call_bundle_states);
}

/// A user's own expansion of a bundle takes it over: what the user expands stays expanded when
/// streaming stops, and is not collapsed in favour of a later bundle.
pub proof fn user_expansion_is_kept<H: Handles>(
    state: StateView<H>,
    id: BundleIdView,
    display: ToolCallDisplay,
    status: ThreadStatus,
)
    requires
        state.wf(),
        display != ToolCallDisplay::Expanded,
        !state.bundle_expanded(id, display),
    ensures
        ({
            let expanded = state.bundle_toggled(id, status, display);
            &&& expanded.bundles_compacted(display).bundle_expanded(id, display)
            &&& expanded.bundle_to_expand(status, display) matches Some(latest)
                ==> expanded.bundle_auto_expanded(latest).bundle_expanded(id, display)
        }),
{
}

/// Every state that a view can come into is well-formed: the first one is, and every transition
/// leads from one such state to another.
pub proof fn states_stay_well_formed<H: Handles>(
    state: StateView<H>,
    entries: Seq<AgentThreadEntry>,
    status: ThreadStatus,
    hint: Option<BundleRecomputeHint>,
    thinking: ThinkingBlockDisplay,
    display: ToolCallDisplay,
)
    requires
        state.wf(),
        hint_in_bounds(state.bundles, entries, hint),
    ensures
        StateView::<H>::init().wf(),
        forall|key: (usize, usize)| #[trigger] state.block_toggled(key, thinking).wf(),
        state.thought_streamed(entries, thinking).0.wf(),
        forall|id: BundleIdView| #[trigger] state.bundle_toggled(id, status, display).wf(),
        state.bundle_to_expand(status, display) matches Some(id) ==> state.bundle_auto_expanded(
            id,
        ).wf(),
        state.bundles_compacted(display).wf(),
        state.bundles_recomputed(entries, hint).wf(),
        forall|start: int, end: int| #[trigger] state.removed(start, end).wf(),
{
    if !keeps_bundles(state.bundles, entries, hint) {
        recomputed_is_ordered(state.bundles, entries, hint);
    }
}

/// After the bundles are recomputed, unless the change could touch none of them, there is state
/// only for bundles that exist, and a bundle that exists has the state that it had before.
pub proof fn recompute_prunes_state<H: Handles>(
    state: StateView<H>,
    entries: Seq<AgentThreadEntry>,
    hint: Option<BundleRecomputeHint>,
)
    ensures
        ({
            let after = state.bundles_recomputed(entries, hint);
            let ids = bundle_ids(after.bundles);
            &&& after.bundles == recomputed(state.bundles, entries, hint)
            &&& !keeps_bundles(state.bundles, entries, hint) ==> {
                &&& after.tool_call_bundle_states.subset_of(ids)
                &&& after.user_collapsed_bundles.subset_of(ids)
                &&& after.auto_expanded_bundle matches Some(id) ==> ids.contains(id)
            }
            &&& forall|i: int|
                0 <= i < after.bundles.len() ==> {
                    let id = (#[trigger] after.bundles[i]).id;
                    &&& after.tool_call_bundle_states.contains(id)
                        == state.tool_call_bundle_states.contains(id)
                    &&& after.user_collapsed_bundles.contains(id)
                        == state.user_collapsed_bundles.contains(id)
                    &&& (after.auto_expanded_bundle == Some(id)) == (state.auto_expanded_bundle
                        == Some(id))
                }
        }),
{
    let after = state.bundles_recomputed(entries, hint);
    assert forall|i: int| 0 <= i < after.bundles.len() implies bundle_ids(after.bundles).contains(
        (#[trigger] after.bundles[i]).id,
    ) by {}
}

/// The bundles that end before the first entry affected by a change survive it, and so does whether
/// they are expanded, collapsed by the user or auto-expanded.
pub proof fn bundle_state_survives_changes_behind<H: Handles>(
    state: StateView<H>,
    entries: Seq<AgentThreadEntry>,
    hint: BundleRecomputeHint,
    i: int,
)
    requires
        state.wf(),
        0 <= i < state.bundles.len(),
        state.bundles[i].end <= affected(state.bundles, entries, hint),
    ensures
        ({
            let after = state.bundles_recomputed(entries, Some(hint));
            let id = state.bundles[i].id;
            &&& after.bundles.len() > i
            &&& after.bundles[i] == state.bundles[i]
            &&& after.tool_call_bundle_states.contains(id)
                == state.tool_call_bundle_states.contains(id)
            &&& after.user_collapsed_bundles.contains(id) == state.user_collapsed_bundles.contains(
                id,
            )
            &&& (after.auto_expanded_bundle == Some(id)) == (state.auto_expanded_bundle == Some(id))
        }),
{
    let after = state.bundles_recomputed(entries, Some(hint));
    let at = affected(state.bundles, entries, hint);
    ends_by(state.bundles, at, 0);
    let kept = first_beyond(state.bundles, at, 0);
    if kept <= i {
        beyond_is_beyond(state.bundles, at, 0);
        assert(kept == i || state.bundles[kept].end <= state.bundles[i].start);
    }
    assert(after.bundles[i] == state.bundles[i]);
    recompute_prunes_state(state, entries, Some(hint));
}

/// An entry is hidden exactly if some collapsed bundle holds it behind its first entry. The first
/// entry of a bundle is never hidden, and nothing is where all bundles are shown expanded.
pub proof fn collapsed_bundles_hide_their_entries<H: Handles>(
    state: StateView<H>,
    entry_ix: int,
    display: ToolCallDisplay,
)
    requires
        state.wf(),
    ensures
        state.entry_hidden(entry_ix, display) <==> exists|i: int|
            0 <= i < state.bundles.len() && (#[trigger] state.bundles[i]).start < entry_ix
                < state.bundles[i].end && !state.bundle_expanded(state.bundles[i].id, display),
        forall|i: int|
            0 <= i < state.bundles.len() ==> !state.entry_hidden(
                (#[trigger] state.bundles[i]).start,
                display,
            ),
        display == ToolCallDisplay::Expanded ==> !state.entry_hidden(entry_ix, display),
{
    let bundles = state.bundles;
    if bundle_at(bundles, entry_ix) is Some {
        let i = choose|i: int| holds(bundles, entry_ix, i);
        assert(holds(bundles, entry_ix, i));
        assert(bundles[i].start <= entry_ix);
    }
    if exists|i: int|
        0 <= i < bundles.len() && (#[trigger] bundles[i]).start < entry_ix < bundles[i].end
            && !state.bundle_expanded(bundles[i].id, display) {
        let i = choose|i: int|
            0 <= i < bundles.len() && (#[trigger] bundles[i]).start < entry_ix < bundles[i].end
                && !state.bundle_expanded(bundles[i].id, display);
        assert(holds(bundles, entry_ix, i));
        bundle_at_is(bundles, entry_ix, i);
    }
    assert forall|i: int| 0 <= i < bundles.len() implies !state.entry_hidden(
        (#[trigger] bundles[i]).start,
        display,
    ) by {
        assert(holds(bundles, bundles[i].start, i));
        bundle_at_is(bundles, bundles[i].start, i);
    }
}

/// An index that is not removed takes along whether the entry there is expanded, and so do its
/// thinking blocks; and the entry itself is found there.
pub proof fn removal_takes_expansion_along<H: Handles>(
    state: StateView<H>,
    start: usize,
    end: usize,
    from: usize,
    to: usize,
    chunk_ix: usize,
    display: ThinkingBlockDisplay,
)
    requires
        reindexed(from as int, start as int, end as int) == Some(to as int),
    ensures
        ({
            let after = state.removed(start as int, end as int);
            &&& after.expanded_compactions.contains(to) == state.expanded_compactions.contains(from)
            &&& after.block_state((to, chunk_ix), display) == state.block_state(
                (from, chunk_ix),
                display,
            )
            &&& (after.auto_expanded_thinking_block == Some((to, chunk_ix))) == (
            state.auto_expanded_thinking_block == Some((from, chunk_ix)))
            &&& start <= end <= state.entries.len() && from < state.entries.len() ==> {
                &&& to < after.entries.len()
                &&& after.entries[to as int] == state.entries[from as int]
            }
        }),
{
    let after = state.removed(start as int, end as int);
    set_follows(state.expanded_compactions, start as int, end as int, from, to);
    blocks_follow(state.expanded_thinking_blocks, start as int, end as int, from, to, chunk_ix);
    blocks_follow(state.user_toggled_thinking_blocks, start as int, end as int, from, to, chunk_ix);
    if let Some((entry_ix, _)) = state.auto_expanded_thinking_block {
        if let Some(moved) = reindexed(entry_ix as int, start as int, end as int) {
            assert(0 <= moved <= entry_ix);
        }
    }
}

proof fn set_follows(indices: Set<usize>, start: int, end: int, from: usize, to: usize)
    requires
        reindexed(from as int, start, end) == Some(to as int),
    ensures
        reindexed_set(indices, start, end).contains(to) == indices.contains(from),
{
    if reindexed_set(indices, start, end).contains(to) {
        let other = choose|other: usize| #[trigger]
            indices.contains(other) && reindexed(other as int, start, end) == Some(to as int);
        assert(other == from);
    }
}

proof fn blocks_follow(
    blocks: Set<(usize, usize)>,
    start: int,
    end: int,
    from: usize,
    to: usize,
    chunk_ix: usize,
)
    requires
        reindexed(from as int, start, end) == Some(to as int),
    ensures
        reindexed_blocks(blocks, start, end).contains((to, chunk_ix)) == blocks.contains(
            (from, chunk_ix),
        ),
{
    if reindexed_blocks(blocks, start, end).contains((to, chunk_ix)) {
        let other = choose|other: usize| #[trigger]
            blocks.contains((other, chunk_ix)) && reindexed(other as int, start, end) == Some(
                to as int,
            );
        assert(other == from);
    }
}

/// Removing no entries changes nothing.
pub proof fn removing_nothing_changes_nothing<H: Handles>(state: StateView<H>, at: usize)
    requires
        at <= state.entries.len(),
    ensures
        state.removed(at as int, at as int) == state,
{
    let after = state.removed(at as int, at as int);
    let start = at as int;
    assert(after.entries =~= state.entries);
    assert forall|ix: usize| after.expanded_compactions.contains(ix)
        == state.expanded_compactions.contains(ix) by {
        set_follows(state.expanded_compactions, start, start, ix, ix);
    }
    assert(after.expanded_compactions =~= state.expanded_compactions);
    assert forall|key: (usize, usize)| after.expanded_thinking_blocks.contains(key)
        == state.expanded_thinking_blocks.contains(key) by {
        blocks_follow(state.expanded_thinking_blocks, start, start, key.0, key.0, key.1);
    }
    assert(after.expanded_thinking_blocks =~= state.expanded_thinking_blocks);
    assert forall|key: (usize, usize)| after.user_toggled_thinking_blocks.contains(key)
        == state.user_toggled_thinking_blocks.contains(key) by {
        blocks_follow(state.user_toggled_thinking_blocks, start, start, key.0, key.0, key.1);
    }
    assert(after.user_toggled_thinking_blocks =~= state.user_toggled_thinking_blocks);
    assert(after.auto_expanded_thinking_block == state.auto_expanded_thinking_block);
}

} // verus!
