//! What is expanded and what is collapsed in the view of a thread.

use std::collections::{HashMap, HashSet};
use std::rc::Rc;

use vstd::prelude::*;

use crate::bundle::{
    bundles_from, tallies_fit, views, BundleId, BundleIdView, BundleRecomputeHint, BundleView,
    ToolCallBundle,
};
use crate::bundle_laws::ordered;
use crate::entry::{
    last_thought, last_thought_index, AssistantMessageEntry, ContentView, Entry, EntryView,
    Handles, ToolCallEntry,
};
use crate::key_set::KeySet;
use crate::recompute::{
    bundle_at, change_keeps_bundles, get_bundle_for_entry, hint_in_bounds, keeps_bundles,
    ordered_is_sorted, recomputed, refresh_bundles,
};
use crate::recompute_laws::{changed_by, recompute_is_complete};
use crate::reindex::{
    reindex_all, reindex_all_blocks, reindex_block, reindexed_block, reindexed_blocks,
    reindexed_set,
};
use crate::settings::{ThinkingBlockDisplay, ToolCallDisplay};
use crate::sync::{
    content_before, diffs_of, effect_views, lacking, missing_call_views, push_contains, put,
    referred, supplies, synced, view_at, EditorAccess, EffectView, MissingViews, NewViews,
    SyncEffect, ThreadInfo,
};
use crate::thread::{AgentThreadEntry, EntityId, ThreadStatus, ToolCallId};

verus! {

/// View state of a thread: the views of its entries, and what of them is expanded.
///
/// A thinking block is identified by the index of its entry and the index of its chunk.
pub struct EntryViewState<H: Handles> {
    entries: Vec<Entry<H>>,
    expanded_thinking_blocks: KeySet<(usize, usize)>,
    auto_expanded_thinking_block: Option<(usize, usize)>,
    user_toggled_thinking_blocks: KeySet<(usize, usize)>,
    expanded_compactions: HashSet<usize>,
    expanded_tool_calls: KeySet<ToolCallId>,
    tool_call_bundle_states: KeySet<BundleId>,
    /// Bundles the user explicitly collapsed during streaming, to prevent
    /// auto-expand from immediately re-opening them.
    user_collapsed_bundles: KeySet<BundleId>,
    /// The bundle currently auto-expanded during streaming, tracked so it
    /// can be compacted when streaming stops. `None` when no bundle is
    /// auto-expanded (or the user has taken over).
    auto_expanded_bundle: Option<BundleId>,
    bundles: Rc<Vec<ToolCallBundle>>,
}

/// What an [`EntryViewState`] holds.
#[verifier::ext_equal]
pub struct StateView<H: Handles> {
    pub entries: Seq<EntryView<H>>,
    pub expanded_thinking_blocks: Set<(usize, usize)>,
    pub auto_expanded_thinking_block: Option<(usize, usize)>,
    pub user_toggled_thinking_blocks: Set<(usize, usize)>,
    pub expanded_compactions: Set<usize>,
    pub expanded_tool_calls: Set<Seq<char>>,
    pub tool_call_bundle_states: Set<BundleIdView>,
    pub user_collapsed_bundles: Set<BundleIdView>,
    pub auto_expanded_bundle: Option<BundleIdView>,
    pub bundles: Seq<BundleView>,
}

/// What each of some entries holds.
pub open spec fn entry_views<H: Handles>(entries: Seq<Entry<H>>) -> Seq<EntryView<H>> {
    entries.map_values(|entry: Entry<H>| entry@)
}

/// What an identifier, if there is one, identifies a bundle by.
pub open spec fn viewed_id(id: Option<BundleId>) -> Option<BundleIdView> {
    match id {
        Some(id) => Some(id@),
        None => None,
    }
}

impl<H: Handles> View for EntryViewState<H> {
    type V = StateView<H>;

    closed spec fn view(&self) -> StateView<H> {
        StateView {
            entries: entry_views(self.entries@),
            expanded_thinking_blocks: self.expanded_thinking_blocks@,
            auto_expanded_thinking_block: self.auto_expanded_thinking_block,
            user_toggled_thinking_blocks: self.user_toggled_thinking_blocks@,
            expanded_compactions: self.expanded_compactions@,
            expanded_tool_calls: self.expanded_tool_calls@,
            tool_call_bundle_states: self.tool_call_bundle_states@,
            user_collapsed_bundles: self.user_collapsed_bundles@,
            auto_expanded_bundle: viewed_id(self.auto_expanded_bundle),
            bundles: views(self.bundles@),
        }
    }
}

/// A set with `key` taken out if it was an element, and put in if it was not.
pub open spec fn toggled<K>(set: Set<K>, key: K) -> Set<K> {
    if set.contains(key) {
        set.remove(key)
    } else {
        set.insert(key)
    }
}

/// The thinking block that streams in: the last chunk of the last entry, if it is a thought.
pub open spec fn streaming_block(entries: Seq<AgentThreadEntry>) -> Option<(usize, usize)> {
    if entries.len() == 0 {
        None
    } else {
        match entries.last() {
            AgentThreadEntry::AssistantMessage(message) => match last_thought(message.chunks@) {
                Some(chunk_ix) => Some(((entries.len() - 1) as usize, chunk_ix)),
                None => None,
            },
            _ => None,
        }
    }
}

/// Whether the entry at some index has an editor for some diff.
pub open spec fn shows_diff<H: Handles>(
    entries: Seq<EntryView<H>>,
    place: (usize, EntityId),
) -> bool {
    place.0 < entries.len() && (entries[place.0 as int].content_at(place.1) matches Some(
        ContentView::DiffEditor(_),
    ))
}

/// The identifiers of some bundles.
pub open spec fn bundle_ids(bundles: Seq<BundleView>) -> Set<BundleIdView> {
    Set::new(
        |id: BundleIdView| exists|i: int| 0 <= i < bundles.len() && (#[trigger] bundles[i]).id == id,
    )
}

impl<H: Handles> StateView<H> {
    /// The state that a view begins with.
    pub open spec fn init() -> Self {
        StateView {
            entries: Seq::empty(),
            expanded_thinking_blocks: Set::empty(),
            auto_expanded_thinking_block: None,
            user_toggled_thinking_blocks: Set::empty(),
            expanded_compactions: Set::empty(),
            expanded_tool_calls: Set::empty(),
            tool_call_bundle_states: Set::empty(),
            user_collapsed_bundles: Set::empty(),
            auto_expanded_bundle: None,
            bundles: Seq::empty(),
        }
    }

    /// What holds of every state: the bundles follow one another, the auto-expanded bundle is
    /// expanded, and no bundle that the user collapsed is.
    pub open spec fn wf(self) -> bool {
        &&& ordered(self.bundles)
        &&& self.auto_expanded_bundle matches Some(id) ==> self.tool_call_bundle_states.contains(id)
        &&& self.user_collapsed_bundles.disjoint(self.tool_call_bundle_states)
    }

    /// Whether a thinking block is open, and whether its height is limited.
    pub open spec fn block_state(self, key: (usize, usize), display: ThinkingBlockDisplay) -> (
        bool,
        bool,
    ) {
        let toggled = self.user_toggled_thinking_blocks.contains(key);
        let expanded = self.expanded_thinking_blocks.contains(key);
        match display {
            ThinkingBlockDisplay::Auto => (toggled || expanded, false),
            ThinkingBlockDisplay::Preview => (toggled || expanded, expanded && !toggled),
            ThinkingBlockDisplay::AlwaysExpanded => (!toggled, false),
            ThinkingBlockDisplay::AlwaysCollapsed => (toggled, false),
        }
    }

    /// The state with a thinking block in neither set.
    pub open spec fn block_closed(self, key: (usize, usize)) -> Self {
        StateView {
            expanded_thinking_blocks: self.expanded_thinking_blocks.remove(key),
            user_toggled_thinking_blocks: self.user_toggled_thinking_blocks.remove(key),
            ..self
        }
    }

    /// The state with a thinking block in both sets.
    pub open spec fn block_opened(self, key: (usize, usize)) -> Self {
        StateView {
            expanded_thinking_blocks: self.expanded_thinking_blocks.insert(key),
            user_toggled_thinking_blocks: self.user_toggled_thinking_blocks.insert(key),
            ..self
        }
    }

    /// The state after the user has toggled a thinking block.
    pub open spec fn block_toggled(self, key: (usize, usize), display: ThinkingBlockDisplay) -> Self {
        let toggled_by_user = self.user_toggled_thinking_blocks.contains(key);
        let expanded = self.expanded_thinking_blocks.contains(key);
        match display {
            ThinkingBlockDisplay::Auto => if toggled_by_user || expanded {
                self.block_closed(key)
            } else {
                self.block_opened(key)
            },
            ThinkingBlockDisplay::AlwaysExpanded => StateView {
                user_toggled_thinking_blocks: toggled(self.user_toggled_thinking_blocks, key),
                ..self
            },
            ThinkingBlockDisplay::Preview | ThinkingBlockDisplay::AlwaysCollapsed => {
                if toggled_by_user {
                    self.block_closed(key)
                } else {
                    self.block_opened(key)
                }
            },
        }
    }

    /// The state after looking for a thought that streams in, and whether it differs.
    pub open spec fn thought_streamed(
        self,
        entries: Seq<AgentThreadEntry>,
        display: ThinkingBlockDisplay,
    ) -> (Self, bool) {
        if display != ThinkingBlockDisplay::Auto && display != ThinkingBlockDisplay::Preview {
            (self, false)
        } else {
            match (streaming_block(entries), self.auto_expanded_thinking_block) {
                (Some(key), auto) => if auto == Some(key) {
                    (self, false)
                } else {
                    (
                        StateView {
                            auto_expanded_thinking_block: Some(key),
                            expanded_thinking_blocks: self.expanded_thinking_blocks.insert(key),
                            ..self
                        },
                        true,
                    )
                },
                (None, Some(key)) => (
                    StateView {
                        auto_expanded_thinking_block: None,
                        expanded_thinking_blocks: if display == ThinkingBlockDisplay::Auto
                            && !self.user_toggled_thinking_blocks.contains(key) {
                            self.expanded_thinking_blocks.remove(key)
                        } else {
                            self.expanded_thinking_blocks
                        },
                        ..self
                    },
                    true,
                ),
                (None, None) => (self, false),
            }
        }
    }

    /// Whether a bundle is shown expanded.
    pub open spec fn bundle_expanded(self, id: BundleIdView, display: ToolCallDisplay) -> bool {
        display == ToolCallDisplay::Expanded || self.tool_call_bundle_states.contains(id)
    }

    /// Whether the user's collapse of a bundle keeps it from being auto-expanded: that is so for the
    /// bundle that is auto-expanded, and for any bundle while bundles are auto-expanded.
    pub open spec fn collapse_is_recorded(
        self,
        id: BundleIdView,
        status: ThreadStatus,
        display: ToolCallDisplay,
    ) -> bool {
        ||| self.auto_expanded_bundle == Some(id)
        ||| status == ThreadStatus::Generating && display == ToolCallDisplay::Auto
    }

    /// The state after the user has toggled a bundle.
    pub open spec fn bundle_toggled(
        self,
        id: BundleIdView,
        status: ThreadStatus,
        display: ToolCallDisplay,
    ) -> Self {
        if display == ToolCallDisplay::Expanded {
            self
        } else if !self.tool_call_bundle_states.contains(id) {
            StateView {
                tool_call_bundle_states: self.tool_call_bundle_states.insert(id),
                user_collapsed_bundles: self.user_collapsed_bundles.remove(id),
                ..self
            }
        } else {
            StateView {
                tool_call_bundle_states: self.tool_call_bundle_states.remove(id),
                user_collapsed_bundles: if self.collapse_is_recorded(id, status, display) {
                    self.user_collapsed_bundles.insert(id)
                } else {
                    self.user_collapsed_bundles
                },
                auto_expanded_bundle: if self.auto_expanded_bundle == Some(id) {
                    None
                } else {
                    self.auto_expanded_bundle
                },
                ..self
            }
        }
    }

    /// Whether an entry is hidden: a member of a collapsed bundle, and not its first one.
    pub open spec fn entry_hidden(self, entry_ix: int, display: ToolCallDisplay) -> bool {
        bundle_at(self.bundles, entry_ix) matches Some(bundle) && entry_ix != bundle.start
            && !self.bundle_expanded(bundle.id, display)
    }

    /// The bundle to expand while the thread generates: the last one, unless it is expanded already
    /// or the user has collapsed it.
    pub open spec fn bundle_to_expand(self, status: ThreadStatus, display: ToolCallDisplay) -> Option<
        BundleIdView,
    > {
        if display == ToolCallDisplay::Auto && status == ThreadStatus::Generating
            && self.bundles.len() > 0 && !self.tool_call_bundle_states.contains(
            self.bundles.last().id,
        ) && !self.user_collapsed_bundles.contains(self.bundles.last().id) {
            Some(self.bundles.last().id)
        } else {
            None
        }
    }

    /// The state with one bundle auto-expanded in place of the one that was.
    pub open spec fn bundle_auto_expanded(self, id: BundleIdView) -> Self {
        StateView {
            tool_call_bundle_states: match self.auto_expanded_bundle {
                Some(before) => self.tool_call_bundle_states.remove(before),
                None => self.tool_call_bundle_states,
            }.insert(id),
            auto_expanded_bundle: Some(id),
            ..self
        }
    }

    /// The state once streaming has stopped.
    pub open spec fn bundles_compacted(self, display: ToolCallDisplay) -> Self {
        if display == ToolCallDisplay::Expanded {
            self
        } else {
            StateView {
                tool_call_bundle_states: match self.auto_expanded_bundle {
                    Some(id) => self.tool_call_bundle_states.remove(id),
                    None => self.tool_call_bundle_states,
                },
                auto_expanded_bundle: None,
                user_collapsed_bundles: Set::empty(),
                ..self
            }
        }
    }

    /// The state without what it says of bundles that do not exist.
    pub open spec fn pruned(self) -> Self {
        let ids = bundle_ids(self.bundles);
        StateView {
            tool_call_bundle_states: self.tool_call_bundle_states.intersect(ids),
            user_collapsed_bundles: self.user_collapsed_bundles.intersect(ids),
            auto_expanded_bundle: match self.auto_expanded_bundle {
                Some(id) => if ids.contains(id) {
                    Some(id)
                } else {
                    None
                },
                None => None,
            },
            ..self
        }
    }

    /// The state after the bundles have been brought up to date.
    pub open spec fn bundles_recomputed(
        self,
        entries: Seq<AgentThreadEntry>,
        hint: Option<BundleRecomputeHint>,
    ) -> Self {
        if keeps_bundles(self.bundles, entries, hint) {
            self
        } else {
            StateView { bundles: recomputed(self.bundles, entries, hint), ..self }.pruned()
        }
    }

    /// The state after the removal of the entries `start..end`.
    pub open spec fn removed(self, start: int, end: int) -> Self {
        StateView {
            entries: self.entries.take(start) + self.entries.skip(end),
            expanded_compactions: reindexed_set(self.expanded_compactions, start, end),
            expanded_thinking_blocks: reindexed_blocks(self.expanded_thinking_blocks, start, end),
            user_toggled_thinking_blocks: reindexed_blocks(
                self.user_toggled_thinking_blocks,
                start,
                end,
            ),
            auto_expanded_thinking_block: reindexed_block(
                self.auto_expanded_thinking_block,
                start,
                end,
            ),
            ..self
        }
    }
}

impl<H: Handles> EntryViewState<H> {
    #[verifier::type_invariant]
    spec fn well_formed(self) -> bool {
        self@.wf()
    }

    /// A view without entries, in which nothing is expanded.
    pub fn new() -> (state: Self)
        ensures
            state@ == StateView::<H>::init(),
            state@.wf(),
    {
        let state = EntryViewState {
            entries: Vec::new(),
            expanded_thinking_blocks: KeySet::new(),
            auto_expanded_thinking_block: None,
            user_toggled_thinking_blocks: KeySet::new(),
            expanded_compactions: HashSet::new(),
            expanded_tool_calls: KeySet::new(),
            tool_call_bundle_states: KeySet::new(),
            user_collapsed_bundles: KeySet::new(),
            auto_expanded_bundle: None,
            bundles: Rc::new(Vec::new()),
        };
        assert(state@ =~= StateView::<H>::init());
        state
    }

    /// The bundles of the thread, in order.
    pub fn bundles(&self) -> (bundles: &Rc<Vec<ToolCallBundle>>)
        ensures
            views(bundles@) == self@.bundles,
            ordered(views(bundles@)),
    {
        proof {
            use_type_invariant(self);
        }
        &self.bundles
    }

    fn take_expanded_tool_calls(&mut self) -> (expanded: KeySet<ToolCallId>)
        ensures
            expanded@ == old(self)@.expanded_tool_calls,
            final(self)@ == (StateView { expanded_tool_calls: Set::empty(), ..old(self)@ }),
            final(self)@.wf(),
    {
        proof {
            use_type_invariant(&*self);
        }
        let mut expanded: KeySet<ToolCallId> = KeySet::new();
        std::mem::swap(&mut expanded, &mut self.expanded_tool_calls);
        expanded
    }

    fn take_expanded_compactions(&mut self) -> (expanded: HashSet<usize>)
        ensures
            expanded@ == old(self)@.expanded_compactions,
            final(self)@ == (StateView { expanded_compactions: Set::empty(), ..old(self)@ }),
            final(self)@.wf(),
    {
        proof {
            use_type_invariant(&*self);
        }
        let mut expanded: HashSet<usize> = HashSet::new();
        std::mem::swap(&mut expanded, &mut self.expanded_compactions);
        expanded
    }

    /// Whether a tool call is expanded.
    pub fn is_tool_call_expanded(&self, tool_call_id: &ToolCallId) -> (expanded: bool)
        ensures
            expanded == self@.expanded_tool_calls.contains(tool_call_id@),
    {
        self.expanded_tool_calls.contains(tool_call_id)
    }

    /// Expands a tool call.
    pub fn expand_tool_call(&mut self, tool_call_id: ToolCallId)
        ensures
            final(self)@ == (StateView {
                expanded_tool_calls: old(self)@.expanded_tool_calls.insert(tool_call_id@),
                ..old(self)@
            }),
            final(self)@.wf(),
    {
        let mut expanded: KeySet<ToolCallId> = self.take_expanded_tool_calls();
        expanded.insert(tool_call_id);
        self.expanded_tool_calls = expanded;
    }

    /// Collapses a tool call.
    pub fn collapse_tool_call(&mut self, tool_call_id: &ToolCallId)
        ensures
            final(self)@ == (StateView {
                expanded_tool_calls: old(self)@.expanded_tool_calls.remove(tool_call_id@),
                ..old(self)@
            }),
            final(self)@.wf(),
    {
        let mut expanded: KeySet<ToolCallId> = self.take_expanded_tool_calls();
        expanded.remove(tool_call_id);
        self.expanded_tool_calls = expanded;
    }

    /// Expands a tool call that is collapsed, and collapses one that is expanded.
    pub fn toggle_tool_call_expansion(&mut self, tool_call_id: &ToolCallId)
        ensures
            final(self)@ == (StateView {
                expanded_tool_calls: toggled(old(self)@.expanded_tool_calls, tool_call_id@),
                ..old(self)@
            }),
            final(self)@.wf(),
    {
        let mut expanded: KeySet<ToolCallId> = self.take_expanded_tool_calls();
        if !expanded.remove(tool_call_id) {
            expanded.insert(tool_call_id.clone());
            assert(expanded@ =~= toggled(old(self)@.expanded_tool_calls, tool_call_id@));
        }
        self.expanded_tool_calls = expanded;
    }

    /// Whether a context compaction is expanded.
    pub fn is_compaction_expanded(&self, entry_ix: usize) -> (expanded: bool)
        ensures
            expanded == self@.expanded_compactions.contains(entry_ix),
    {
        broadcast use vstd::std_specs::hash::group_hash_axioms;

        self.expanded_compactions.contains(&entry_ix)
    }

    /// Collapses a context compaction.
    pub fn collapse_compaction(&mut self, entry_ix: usize)
        ensures
            final(self)@ == (StateView {
                expanded_compactions: old(self)@.expanded_compactions.remove(entry_ix),
                ..old(self)@
            }),
            final(self)@.wf(),
    {
        broadcast use vstd::std_specs::hash::group_hash_axioms;

        let mut expanded: HashSet<usize> = self.take_expanded_compactions();
        expanded.remove(&entry_ix);
        self.expanded_compactions = expanded;
    }

    /// Expands a context compaction that is collapsed, and collapses one that is expanded.
    pub fn toggle_compaction_expansion(&mut self, entry_ix: usize)
        ensures
            final(self)@ == (StateView {
                expanded_compactions: toggled(old(self)@.expanded_compactions, entry_ix),
                ..old(self)@
            }),
            final(self)@.wf(),
    {
        broadcast use vstd::std_specs::hash::group_hash_axioms;

        let mut expanded: HashSet<usize> = self.take_expanded_compactions();
        if !expanded.remove(&entry_ix) {
            expanded.insert(entry_ix);
            assert(expanded@ =~= toggled(old(self)@.expanded_compactions, entry_ix));
        }
        self.expanded_compactions = expanded;
    }

    /// Stops following a thought that streams in.
    pub fn clear_auto_expanded_thinking(&mut self)
        ensures
            final(self)@ == (StateView { auto_expanded_thinking_block: None, ..old(self)@ }),
            final(self)@.wf(),
    {
        proof {
            use_type_invariant(&*self);
        }
        self.auto_expanded_thinking_block = None;
    }

    /// Whether a thinking block is the one that is followed as it streams in.
    pub fn is_auto_expanded_thinking_block(&self, key: (usize, usize)) -> (is_auto: bool)
        ensures
            is_auto == (self@.auto_expanded_thinking_block == Some(key)),
    {
        match self.auto_expanded_thinking_block {
            Some(auto) => auto.0 == key.0 && auto.1 == key.1,
            None => false,
        }
    }

    /// Expands the thought that streams in, if there is one, and else lets go of the one before,
    /// which is collapsed again in `Auto` mode unless the user has toggled it. Returns whether
    /// anything has changed.
    pub fn auto_expand_streaming_thought(
        &mut self,
        entries: &[AgentThreadEntry],
        thinking_display: ThinkingBlockDisplay,
    ) -> (changed: bool)
        ensures
            (final(self)@, changed) == old(self)@.thought_streamed(entries@, thinking_display),
            final(self)@.wf(),
    {
        proof {
            use_type_invariant(&*self);
        }
        if thinking_display != ThinkingBlockDisplay::Auto && thinking_display
            != ThinkingBlockDisplay::Preview {
            return false;
        }
        match streaming_thought(entries) {
            Some(key) => {
                if !self.is_auto_expanded_thinking_block(key) {
                    self.auto_expanded_thinking_block = Some(key);
                    let mut expanded: KeySet<(usize, usize)> = KeySet::new();
                    std::mem::swap(&mut expanded, &mut self.expanded_thinking_blocks);
                    expanded.insert(key);
                    self.expanded_thinking_blocks = expanded;
                    return true;
                }
            },
            None => {
                if let Some(key) = self.auto_expanded_thinking_block {
                    if thinking_display == ThinkingBlockDisplay::Auto
                        && !self.user_toggled_thinking_blocks.contains(&key) {
                        let mut expanded: KeySet<(usize, usize)> = KeySet::new();
                        std::mem::swap(&mut expanded, &mut self.expanded_thinking_blocks);
                        expanded.remove(&key);
                        self.expanded_thinking_blocks = expanded;
                    }
                    self.auto_expanded_thinking_block = None;
                    return true;
                }
            },
        }
        false
    }

    /// Follows the user's wish to open or close a thinking block.
    pub fn toggle_thinking_block_expansion(
        &mut self,
        key: (usize, usize),
        thinking_display: ThinkingBlockDisplay,
    )
        ensures
            final(self)@ == old(self)@.block_toggled(key, thinking_display),
            final(self)@.wf(),
    {
        proof {
            use_type_invariant(&*self);
        }
        let mut expanded: KeySet<(usize, usize)> = KeySet::new();
        std::mem::swap(&mut expanded, &mut self.expanded_thinking_blocks);
        let mut toggled_by_user: KeySet<(usize, usize)> = KeySet::new();
        std::mem::swap(&mut toggled_by_user, &mut self.user_toggled_thinking_blocks);
        match thinking_display {
            ThinkingBlockDisplay::Auto => {
                let is_open = expanded.contains(&key)
                    || toggled_by_user.contains(&key);
                if is_open {
                    expanded.remove(&key);
                    toggled_by_user.remove(&key);
                } else {
                    expanded.insert(key);
                    toggled_by_user.insert(key);
                }
            },
            ThinkingBlockDisplay::Preview => {
                let is_user_expanded = toggled_by_user.contains(&key);
                let is_in_expanded_set = expanded.contains(&key);
                if is_user_expanded {
                    toggled_by_user.remove(&key);
                    expanded.remove(&key);
                } else if is_in_expanded_set {
                    toggled_by_user.insert(key);
                    assert(expanded@.insert(key) =~= expanded@);
                } else {
                    expanded.insert(key);
                    toggled_by_user.insert(key);
                }
            },
            ThinkingBlockDisplay::AlwaysExpanded => {
                if toggled_by_user.contains(&key) {
                    toggled_by_user.remove(&key);
                } else {
                    toggled_by_user.insert(key);
                }
            },
            ThinkingBlockDisplay::AlwaysCollapsed => {
                if toggled_by_user.contains(&key) {
                    toggled_by_user.remove(&key);
                    expanded.remove(&key);
                } else {
                    expanded.insert(key);
                    toggled_by_user.insert(key);
                }
            },
        }
        self.expanded_thinking_blocks = expanded;
        self.user_toggled_thinking_blocks = toggled_by_user;
    }

    /// Whether a thinking block is open, and whether its height is limited.
    pub fn thinking_block_state(
        &self,
        key: (usize, usize),
        thinking_display: ThinkingBlockDisplay,
    ) -> (state: (bool, bool))
        ensures
            state == self@.block_state(key, thinking_display),
    {
        let is_user_toggled = self.user_toggled_thinking_blocks.contains(&key);
        let is_in_expanded_set = self.expanded_thinking_blocks.contains(&key);
        match thinking_display {
            ThinkingBlockDisplay::Auto => {
                let is_open = is_user_toggled || is_in_expanded_set;
                (is_open, false)
            },
            ThinkingBlockDisplay::Preview => {
                let is_open = is_user_toggled || is_in_expanded_set;
                let is_constrained = is_in_expanded_set && !is_user_toggled;
                (is_open, is_constrained)
            },
            ThinkingBlockDisplay::AlwaysExpanded => (!is_user_toggled, false),
            ThinkingBlockDisplay::AlwaysCollapsed => (is_user_toggled, false),
        }
    }

    /// Takes out which bundles are expanded, which ones the user collapsed, and which one is
    /// expanded automatically.
    fn take_bundle_states(&mut self) -> (states: (
        KeySet<BundleId>,
        KeySet<BundleId>,
        Option<BundleId>,
    ))
        ensures
            states.0@ == old(self)@.tool_call_bundle_states,
            states.1@ == old(self)@.user_collapsed_bundles,
            viewed_id(states.2) == old(self)@.auto_expanded_bundle,
            old(self)@.wf(),
            final(self)@ == (StateView {
                tool_call_bundle_states: Set::empty(),
                user_collapsed_bundles: Set::empty(),
                auto_expanded_bundle: None,
                ..old(self)@
            }),
    {
        proof {
            use_type_invariant(&*self);
        }
        let mut expanded: KeySet<BundleId> = KeySet::new();
        let mut collapsed: KeySet<BundleId> = KeySet::new();
        let mut auto: Option<BundleId> = None;
        std::mem::swap(&mut auto, &mut self.auto_expanded_bundle);
        std::mem::swap(&mut expanded, &mut self.tool_call_bundle_states);
        std::mem::swap(&mut collapsed, &mut self.user_collapsed_bundles);
        (expanded, collapsed, auto)
    }

    /// Puts back which bundles are expanded, which ones the user collapsed, and which one is
    /// expanded automatically.
    fn put_bundle_states(
        &mut self,
        expanded: KeySet<BundleId>,
        collapsed: KeySet<BundleId>,
        auto: Option<BundleId>,
    )
        requires
            collapsed@.disjoint(expanded@),
            viewed_id(auto) matches Some(id) ==> expanded@.contains(id),
        ensures
            final(self)@ == (StateView {
                tool_call_bundle_states: expanded@,
                user_collapsed_bundles: collapsed@,
                auto_expanded_bundle: viewed_id(auto),
                ..old(self)@
            }),
            final(self)@.wf(),
    {
        proof {
            use_type_invariant(&*self);
        }
        self.auto_expanded_bundle = None;
        self.user_collapsed_bundles = KeySet::new();
        self.tool_call_bundle_states = expanded;
        self.user_collapsed_bundles = collapsed;
        self.auto_expanded_bundle = auto;
    }

    /// Expands a bundle that is collapsed, and collapses one that is expanded. One that is collapsed
    /// during streaming is not expanded automatically again until streaming stops.
    pub fn toggle_tool_call_bundle_expansion(
        &mut self,
        bundle_id: &BundleId,
        status: ThreadStatus,
        tool_call_display: ToolCallDisplay,
    )
        ensures
            final(self)@ == old(self)@.bundle_toggled(bundle_id@, status, tool_call_display),
            final(self)@.wf(),
    {
        proof {
            use_type_invariant(&*self);
        }
        match tool_call_display {
            ToolCallDisplay::Auto | ToolCallDisplay::Compact => {
                let (mut expanded, mut collapsed, mut auto) = self.take_bundle_states();
                if expanded.contains(bundle_id) {
                    expanded.remove(bundle_id);
                    let is_auto = match &auto {
                        Some(auto_id) => auto_id.same_as(bundle_id),
                        None => false,
                    };
                    if is_auto {
                        auto = None;
                    }
                    if is_auto || status == ThreadStatus::Generating && tool_call_display
                        == ToolCallDisplay::Auto {
                        collapsed.insert(bundle_id.clone());
                    }
                } else {
                    expanded.insert(bundle_id.clone());
                    collapsed.remove(bundle_id);
                }
                self.put_bundle_states(expanded, collapsed, auto);
            },
            ToolCallDisplay::Expanded => {},
        }
    }

    /// Whether a bundle is shown expanded.
    pub fn tool_call_bundle_state(
        &self,
        bundle_id: &BundleId,
        tool_call_display: ToolCallDisplay,
    ) -> (expanded: bool)
        ensures
            expanded == self@.bundle_expanded(bundle_id@, tool_call_display),
    {
        match tool_call_display {
            ToolCallDisplay::Expanded => true,
            ToolCallDisplay::Auto | ToolCallDisplay::Compact => {
                self.tool_call_bundle_states.contains(bundle_id)
            },
        }
    }

    /// Whether the user has collapsed a bundle during streaming, and not expanded it again since,
    /// while streaming goes on.
    pub fn is_bundle_user_collapsed(&self, bundle_id: &BundleId) -> (collapsed: bool)
        ensures
            collapsed == self@.user_collapsed_bundles.contains(bundle_id@),
    {
        self.user_collapsed_bundles.contains(bundle_id)
    }

    /// Returns true when the entry is a non-first member of a collapsed
    /// bundle, so that it takes no visual space.
    pub fn is_entry_in_collapsed_bundle(
        &self,
        entry_ix: usize,
        tool_call_display: ToolCallDisplay,
    ) -> (hidden: bool)
        ensures
            hidden == self@.entry_hidden(entry_ix as int, tool_call_display),
    {
        proof {
            use_type_invariant(self);
            ordered_is_sorted(self@.bundles);
        }
        match get_bundle_for_entry(self.bundles.as_slice(), entry_ix) {
            Some(bundle) => {
                if entry_ix != bundle.start_index {
                    !self.tool_call_bundle_state(&bundle.id, tool_call_display)
                } else {
                    false
                }
            },
            None => false,
        }
    }

    /// While the thread generates, expands its latest bundle in `Auto` mode, unless that one is
    /// expanded or the user has collapsed it; the bundle that had been expanded so before is
    /// collapsed. Returns whether anything has changed.
    pub fn auto_expand_streaming_bundles(
        &mut self,
        status: ThreadStatus,
        tool_call_display: ToolCallDisplay,
    ) -> (changed: bool)
        ensures
            match old(self)@.bundle_to_expand(status, tool_call_display) {
                Some(id) => changed && final(self)@ == old(self)@.bundle_auto_expanded(id),
                None => !changed && final(self)@ == old(self)@,
            },
            final(self)@.wf(),
    {
        proof {
            use_type_invariant(&*self);
        }
        if tool_call_display != ToolCallDisplay::Auto {
            return false;
        }
        if status != ThreadStatus::Generating {
            return false;
        }
        let count: usize = self.bundles.len();
        if count == 0 {
            return false;
        }
        let key = self.bundles[count - 1].id.clone();
        assert(key@ == self@.bundles.last().id);
        if self.tool_call_bundle_states.contains(&key) {
            return false;
        }
        if self.user_collapsed_bundles.contains(&key) {
            return false;
        }
        let (mut expanded, collapsed, auto) = self.take_bundle_states();
        if let Some(before) = auto {
            expanded.remove(&before);
        }
        expanded.insert(key.clone());
        self.put_bundle_states(expanded, collapsed, Some(key));
        true
    }

    /// Once streaming has stopped, collapses the bundle that had been expanded automatically and
    /// forgets which ones the user collapsed meanwhile. Returns whether anything has changed.
    pub fn auto_compact_bundles(&mut self, tool_call_display: ToolCallDisplay) -> (changed: bool)
        ensures
            final(self)@ == old(self)@.bundles_compacted(tool_call_display),
            changed == (tool_call_display != ToolCallDisplay::Expanded && (
            old(self)@.auto_expanded_bundle is Some || !(old(self)@.user_collapsed_bundles
                =~= Set::<BundleIdView>::empty()))),
            final(self)@.wf(),
    {
        proof {
            use_type_invariant(&*self);
        }
        if tool_call_display == ToolCallDisplay::Expanded {
            return false;
        }
        let mut changed = false;
        let (mut expanded, mut collapsed, auto) = self.take_bundle_states();
        if let Some(key) = auto {
            expanded.remove(&key);
            changed = true;
        }
        if !collapsed.is_empty() {
            collapsed.clear();
            changed = true;
        }
        self.put_bundle_states(expanded, collapsed, None);
        changed
    }

    /// Brings the bundles up to date after a change of the thread's entries, or computes them all
    /// where no hint says what has changed, and drops what is known of bundles that no longer
    /// exist. Nothing is done where the change cannot touch any bundle.
    ///
    /// Where the bundles were those of the entries before the change, they are those of the entries
    /// afterwards, just as if they were all computed.
    pub fn recompute_bundles(
        &mut self,
        entries: &[AgentThreadEntry],
        hint: Option<BundleRecomputeHint>,
    )
        requires
            tallies_fit(entries@),
            hint_in_bounds(old(self)@.bundles, entries@, hint),
        ensures
            final(self)@ == old(self)@.bundles_recomputed(entries@, hint),
            final(self)@.wf(),
            hint is None ==> final(self)@.bundles == bundles_from(entries@, 0, 0),
            forall|before: Seq<AgentThreadEntry>| #[trigger]
                bundles_from(before, 0, 0) == old(self)@.bundles && hint is Some && changed_by(
                    before,
                    entries@,
                    hint->0,
                ) ==> final(self)@.bundles
                    == bundles_from(entries@, 0, 0),
    {
        proof {
            use_type_invariant(&*self);
            assert forall|before: Seq<AgentThreadEntry>| #[trigger]
                bundles_from(before, 0, 0) == self@.bundles && hint is Some && changed_by(
                    before,
                    entries@,
                    hint->0,
                ) implies recomputed(
                self@.bundles,
                entries@,
                hint,
            ) == bundles_from(entries@, 0, 0) by {
                recompute_is_complete(before, entries@, hint->0);
            }
        }
        if change_keeps_bundles(self.bundles.as_slice(), entries, &hint) {
            return;
        }
        let new_bundles = refresh_bundles(self.bundles.as_slice(), entries, &hint);
        self.bundles = Rc::new(new_bundles);
        self.prune_bundle_states();
    }

    /// Drops expansion state for bundles that no longer exist.
    fn prune_bundle_states(&mut self)
        ensures
            final(self)@ == old(self)@.pruned(),
    {
        let mut valid_ids: KeySet<BundleId> = KeySet::new();
        let ghost bundles = self@.bundles;
        let mut i: usize = 0;
        while i < self.bundles.len()
            invariant
                i <= self.bundles@.len(),
                bundles == views(self.bundles@),
                valid_ids@ == bundle_ids(bundles.take(i as int)),
            decreases self.bundles@.len() - i,
        {
            let id = self.bundles[i].id.clone();
            assert(id@ == bundles[i as int].id);
            valid_ids.insert(id);
            proof {
                bundle_ids_push(bundles, i as int);
            }
            i += 1;
        }
        assert(bundles.take(i as int) =~= bundles);
        let (mut expanded, mut collapsed, mut auto) = self.take_bundle_states();
        expanded.retain_in(&valid_ids);
        collapsed.retain_in(&valid_ids);
        let is_gone = match &auto {
            Some(auto_id) => !valid_ids.contains(auto_id),
            None => false,
        };
        if is_gone {
            auto = None;
        }
        self.put_bundle_states(expanded, collapsed, auto);
    }

    /// The view of the entry at `index`.
    pub fn entry(&self, index: usize) -> (entry: Option<&Entry<H>>)
        ensures
            match entry {
                Some(entry) => index < self@.entries.len() && entry@ == self@.entries[index as int],
                None => index >= self@.entries.len(),
            },
    {
        if index < self.entries.len() {
            Some(&self.entries[index])
        } else {
            None
        }
    }

    /// The views that have to be created before the entry at `index` can be synced.
    pub fn missing_views(
        &self,
        index: usize,
        entry: Option<&AgentThreadEntry>,
        info: ThreadInfo,
    ) -> (lacks: MissingViews)
        ensures
            lacks@ == lacking(
                view_at(self@.entries, index as int),
                referred(entry),
                info,
            ),
    {
        let own = self.entry(index);
        match entry {
            Some(AgentThreadEntry::UserMessage(message)) => {
                let access = if let Some(Entry::UserMessage(_)) = own {
                    None
                } else if !info.supports_truncate || !message.has_client_id || info.is_subagent {
                    Some(EditorAccess::ReadOnly)
                } else {
                    Some(EditorAccess::Editable)
                };
                MissingViews { message_editor: access, terminals: Vec::new(), diffs: Vec::new() }
            },
            Some(AgentThreadEntry::ToolCall(call)) => {
                if let Some(Entry::ToolCall(own_call)) = own {
                    missing_call_views(Some(&own_call.content), call)
                } else {
                    assert(content_before(view_at(self@.entries, index as int)).dom()
                        =~= Set::empty());
                    missing_call_views::<H>(None, call)
                }
            },
            _ => MissingViews { message_editor: None, terminals: Vec::new(), diffs: Vec::new() },
        }
    }

    fn set_entry(&mut self, index: usize, entry: Entry<H>)
        requires
            index <= old(self)@.entries.len(),
        ensures
            final(self)@ == (StateView {
                entries: put(old(self)@.entries, index as int, entry@),
                ..old(self)@
            }),
            final(self).entries@.len() > index,
            final(self).entries@[index as int] == entry,
    {
        proof {
            use_type_invariant(&*self);
        }
        let mut entries: Vec<Entry<H>> = Vec::new();
        std::mem::swap(&mut entries, &mut self.entries);
        if index == entries.len() {
            entries.push(entry);
        } else {
            entries[index] = entry;
        }
        self.entries = entries;
        assert(self@.entries =~= put(old(self)@.entries, index as int, entry@));
    }

    /// Brings the view of the entry at `index` in step with the thread's entry there, if there is
    /// one, and returns what is to be done then, in order.
    ///
    /// The editor of a message is left alone while it is focused: cancelling the edit will set the
    /// message to the newest content.
    pub fn sync_entry(
        &mut self,
        index: usize,
        entry: Option<&AgentThreadEntry>,
        editor_focused: bool,
        new_views: NewViews<H>,
    ) -> (effects: Vec<SyncEffect<H>>)
        requires
            entry is Some ==> index <= old(self)@.entries.len(),
            supplies(new_views, view_at(old(self)@.entries, index as int), referred(entry)),
        ensures
            ({
                let (entries, done) = synced(
                    old(self)@.entries,
                    index as int,
                    referred(entry),
                    editor_focused,
                    new_views,
                );
                &&& final(self)@ == (StateView { entries, ..old(self)@ })
                &&& effect_views(effects@) == done
            }),
            final(self)@.wf(),
    {
        proof {
            use_type_invariant(&*self);
        }
        let mut effects: Vec<SyncEffect<H>> = Vec::new();
        let entry = match entry {
            Some(entry) => entry,
            None => {
                assert(effect_views(effects@) =~= Seq::empty());
                return effects;
            },
        };
        let ghost before = self@;
        let ghost own = view_at(self@.entries, index as int);
        assert(effect_views(effects@) =~= Seq::empty());
        match entry {
            AgentThreadEntry::UserMessage(_) => {
                let has_editor = match self.entry(index) {
                    Some(Entry::UserMessage(_)) => true,
                    _ => false,
                };
                if has_editor {
                    if !editor_focused {
                        effects.push(SyncEffect::SetMessage);
                        assert(effect_views(effects@) =~= seq![EffectView::SetMessage]);
                    }
                } else if let Some(editor) = new_views.message_editor {
                    self.set_entry(index, Entry::UserMessage(editor));
                }
            },
            AgentThreadEntry::ToolCall(call) => {
                let has_view = match self.entry(index) {
                    Some(Entry::ToolCall(_)) => true,
                    _ => false,
                };
                if !has_view {
                    let view = ToolCallEntry {
                        content: HashMap::new(),
                        focus_handle: new_views.focus_handle,
                    };
                    assert(view.content@ =~= content_before(own));
                    self.set_entry(index, Entry::ToolCall(view));
                }
                let ghost shown = self.entries@;
                let ghost after = synced(
                    before.entries,
                    index as int,
                    Some(*entry),
                    editor_focused,
                    new_views,
                ).0;
                let mut views: Vec<Entry<H>> = Vec::new();
                std::mem::swap(&mut views, &mut self.entries);
                match &mut views[index] {
                    Entry::ToolCall(view) => {
                        effects = view.sync(index, call, new_views.terminals, new_views.diff_editors);
                    },
                    _ => {},
                }
                self.entries = views;
                assert(self.entries@[index as int]@ == after[index as int]);
                assert(self.entries@ =~= shown.update(index as int, self.entries@[index as int]));
                assert(entry_views(shown).update(index as int, after[index as int]) =~= after);
                assert(self@.entries =~= after);
            },
            AgentThreadEntry::AssistantMessage(message) => {
                let has_view = match self.entry(index) {
                    Some(Entry::AssistantMessage(_)) => true,
                    _ => false,
                };
                if !has_view {
                    let view = AssistantMessageEntry {
                        scroll_handles_by_chunk_index: HashMap::new(),
                        focus_handle: new_views.focus_handle,
                    };
                    self.set_entry(index, Entry::AssistantMessage(view));
                }
                let ghost shown = self.entries@;
                let ghost after = synced(
                    before.entries,
                    index as int,
                    Some(*entry),
                    editor_focused,
                    new_views,
                ).0;
                let mut views: Vec<Entry<H>> = Vec::new();
                std::mem::swap(&mut views, &mut self.entries);
                match &mut views[index] {
                    Entry::AssistantMessage(view) => {
                        if let Some(chunk_ix) = view.sync(message, new_views.scroll_handle) {
                            effects.push(SyncEffect::ScrollToBottom(chunk_ix));
                        }
                    },
                    _ => {},
                }
                self.entries = views;
                assert(self.entries@[index as int]@ == after[index as int]);
                assert(self.entries@ =~= shown.update(index as int, self.entries@[index as int]));
                assert(entry_views(shown).update(index as int, after[index as int]) =~= after);
                assert(self@.entries =~= after);
            },
            AgentThreadEntry::CompletedPlan => {
                let is_shown = match self.entry(index) {
                    Some(Entry::CompletedPlan) => true,
                    _ => false,
                };
                if !is_shown {
                    self.set_entry(index, Entry::CompletedPlan);
                }
                assert(self@.entries =~= put(before.entries, index as int, EntryView::CompletedPlan));
            },
            AgentThreadEntry::ContextCompaction => {
                let is_shown = match self.entry(index) {
                    Some(Entry::ContextCompaction) => true,
                    _ => false,
                };
                if !is_shown {
                    self.set_entry(index, Entry::ContextCompaction);
                }
                assert(self@.entries =~= put(
                    before.entries,
                    index as int,
                    EntryView::ContextCompaction,
                ));
            },
        }
        effects
    }

    /// The diff editors whose text is to be restyled when the font size changes: all there are, by
    /// the index of the entry and the diff, each of them once.
    pub fn agent_ui_font_size_changed(&self) -> (editors: Vec<(usize, EntityId)>)
        ensures
            editors@.no_duplicates(),
            forall|place: (usize, EntityId)| #[trigger]
                editors@.contains(place) <==> shows_diff(self@.entries, place),
    {
        let mut editors: Vec<(usize, EntityId)> = Vec::new();
        let mut ix: usize = 0;
        while ix < self.entries.len()
            invariant
                ix <= self.entries@.len(),
                editors@.no_duplicates(),
                forall|place: (usize, EntityId)| #[trigger]
                    editors@.contains(place) <==> place.0 < ix && shows_diff(
                        self@.entries,
                        place,
                    ),
            decreases self.entries@.len() - ix,
        {
            let ghost listed = editors@;
            if let Entry::ToolCall(call) = &self.entries[ix] {
                let diffs = diffs_of(&call.content);
                let mut i: usize = 0;
                assert(diffs@.take(0) =~= Seq::empty());
                while i < diffs.len()
                    invariant
                        i <= diffs@.len(),
                        diffs@.no_duplicates(),
                        editors@.no_duplicates(),
                        forall|place: (usize, EntityId)| #[trigger]
                            listed.contains(place) ==> place.0 < ix,
                        forall|place: (usize, EntityId)| #[trigger]
                            editors@.contains(place) <==> listed.contains(place) || place.0 == ix
                                && diffs@.take(i as int).contains(place.1),
                    decreases diffs@.len() - i,
                {
                    let id: EntityId = diffs[i];
                    let ghost known = editors@;
                    proof {
                        assert(!diffs@.take(i as int).contains(id));
                        assert(!known.contains((ix, id)));
                        assert(diffs@.take(i + 1) =~= diffs@.take(i as int).push(id));
                    }
                    editors.push((ix, id));
                    proof {
                        assert forall|j: int, k: int| 0 <= j < k < editors@.len() implies editors@[j]
                            != editors@[k] by {
                            assert(known.contains(known[j]));
                        }
                        assert forall|place: (usize, EntityId)| #[trigger]
                            editors@.contains(place) <==> listed.contains(place) || place.0 == ix
                                && diffs@.take(i + 1).contains(place.1) by {
                            push_contains(known, (ix, id), place);
                            push_contains(diffs@.take(i as int), id, place.1);
                        }
                    }
                    i += 1;
                }
                assert(diffs@.take(i as int) =~= diffs@);
            }
            assert forall|place: (usize, EntityId)| #[trigger]
                editors@.contains(place) <==> place.0 < ix + 1 && shows_diff(
                    self@.entries,
                    place,
                ) by {
                assert(self@.entries[ix as int] == self.entries@[ix as int]@);
            }
            ix += 1;
        }
        editors
    }

    /// Removes the views of some entries. What is known of the entries behind them moves along.
    pub fn remove(&mut self, range: std::ops::Range<usize>)
        requires
            range.start <= range.end <= old(self)@.entries.len(),
        ensures
            final(self)@ == old(self)@.removed(range.start as int, range.end as int),
            final(self)@.wf(),
    {
        proof {
            use_type_invariant(&*self);
        }
        let mut entries: Vec<Entry<H>> = Vec::new();
        std::mem::swap(&mut entries, &mut self.entries);
        let mut behind = entries.split_off(range.end);
        entries.truncate(range.start);
        entries.append(&mut behind);
        self.entries = entries;
        self.expanded_compactions = reindex_all(&self.expanded_compactions, &range);
        self.expanded_thinking_blocks = reindex_all_blocks(&self.expanded_thinking_blocks, &range);
        self.user_toggled_thinking_blocks = reindex_all_blocks(
            &self.user_toggled_thinking_blocks,
            &range,
        );
        self.auto_expanded_thinking_block = reindex_block(
            self.auto_expanded_thinking_block,
            &range,
        );
        assert(self@.entries =~= old(self)@.removed(
            range.start as int,
            range.end as int,
        ).entries);
    }
}

/// The identifier of one more bundle is one more identifier.
proof fn bundle_ids_push(bundles: Seq<BundleView>, i: int)
    requires
        0 <= i < bundles.len(),
    ensures
        bundle_ids(bundles.take(i + 1)) == bundle_ids(bundles.take(i)).insert(bundles[i].id),
{
    let before = bundles.take(i);
    let after = bundles.take(i + 1);
    assert forall|id: BundleIdView| bundle_ids(after).contains(id) <==> bundle_ids(before).insert(
        bundles[i].id,
    ).contains(id) by {
        if bundle_ids(before).contains(id) {
            let j = choose|j: int| 0 <= j < before.len() && (#[trigger] before[j]).id == id;
            assert(after[j].id == id);
        }
        if bundle_ids(after).contains(id) {
            let j = choose|j: int| 0 <= j < after.len() && (#[trigger] after[j]).id == id;
            if j < i {
                assert(before[j].id == id);
            }
        }
        assert(after[i].id == bundles[i].id);
    }
    assert(bundle_ids(after) =~= bundle_ids(before).insert(bundles[i].id));
}

/// The thinking block that streams in.
fn streaming_thought(entries: &[AgentThreadEntry]) -> (key: Option<(usize, usize)>)
    ensures
        key == streaming_block(entries@),
{
    let count: usize = entries.len();
    if count == 0 {
        return None;
    }
    match &entries[count - 1] {
        AgentThreadEntry::AssistantMessage(message) => match last_thought_index(message) {
            Some(chunk_ix) => Some((count - 1, chunk_ix)),
            None => None,
        },
        _ => None,
    }
}

} // verus!
