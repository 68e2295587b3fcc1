//! What syncing an entry does, said of the call: of what it was given, what it returned, and what
//! the views hold before and after.

use vstd::prelude::*;

use crate::entry::{
    open_diff_location, AssistantMessageEntry, ContentKind, ContentView, Entry, EntryView,
    EntryViewEvent, EventView, FocusTarget, Handles, Point,
};
use crate::state::{EntryViewState, StateView};
use crate::sync::{
    content_before, diff_contents, diff_effects, effect_views, keys_with_terminals,
    missing, supplies, terminal_contents, terminal_effects, terminal_ids, view_at,
    with_content, EditorAccess, EffectView, MissingViews, NewViews, SyncEffect,
    ThreadInfo,
};
use crate::sync_laws::{
    each_new_view_is_announced_once, given_views_are_held, missing_ids_are_missing,
    sync_keeps_and_adds_views, times_raised, times_raised_adds,
};
use crate::thread::{
    AgentThreadEntry, AssistantMessage, AssistantMessageChunk, EntityId, Terminal, ToolCall,
    ToolCallStatus,
};

verus! {

/// The view that the tool call at `index` has for a terminal or a diff.
pub open spec fn held<H: Handles>(entries: Seq<EntryView<H>>, index: int, id: EntityId) -> Option<
    ContentView<H>,
> {
    if 0 <= index < entries.len() && (entries[index] matches EntryView::ToolCall { content, .. }
        && content.contains_key(id)) {
        Some(entries[index]->ToolCall_content[id])
    } else {
        None
    }
}

/// Whether a terminal is listed among the first `count` of a tool call.
pub open spec fn listed_terminal(call: ToolCall, count: int, id: EntityId) -> bool {
    exists|i: int| 0 <= i < count && (#[trigger] call.terminals@[i]).id == id
}

/// What a sync leaves alone: all but the view of the entry at `index`, which stands behind the
/// others if it is new.
pub open spec fn only_entry_changed<H: Handles>(
    before: StateView<H>,
    after: StateView<H>,
    index: int,
) -> bool {
    &&& after == (StateView { entries: after.entries, ..before })
    &&& after.entries.len() == before.entries.len() + if index == before.entries.len() {
        1int
    } else {
        0
    }
    &&& forall|i: int|
        0 <= i < before.entries.len() && i != index ==> #[trigger] after.entries[i]
            == before.entries[i]
}

/// Where the thread has no entry, nothing happens.
pub proof fn nothing_is_synced_beyond_the_thread<H: Handles>(
    state: &mut EntryViewState<H>,
    index: usize,
    editor_focused: bool,
    new_views: NewViews<H>,
    effects: Vec<SyncEffect<H>>,
)
    requires
        new_views.terminals@.len() == 0,
        new_views.diff_editors@.len() == 0,
        call_ensures(
            EntryViewState::<H>::sync_entry,
            (state, index, None::<&AgentThreadEntry>, editor_focused, new_views),
            effects,
        ),
    ensures
        final(state)@ == old(state)@,
        effects@.len() == 0,
{
    assert(effect_views(effects@).len() == effects@.len());
}

/// A message of the user that has an editor keeps it; the message is set again unless the editor is
/// focused. One that has none gets the editor that was created for it.
pub proof fn user_message_is_synced<H: Handles>(
    state: &mut EntryViewState<H>,
    index: usize,
    entry: AgentThreadEntry,
    editor_focused: bool,
    new_views: NewViews<H>,
    effects: Vec<SyncEffect<H>>,
)
    requires
        entry is UserMessage,
        index <= old(state)@.entries.len(),
        supplies(new_views, view_at(old(state)@.entries, index as int), Some(entry)),
        call_ensures(
            EntryViewState::<H>::sync_entry,
            (state, index, Some(&entry), editor_focused, new_views),
            effects,
        ),
    ensures
        ({
            let (before, after) = (old(state)@, final(state)@);
            let has_editor = index < before.entries.len()
                && before.entries[index as int] is UserMessage;
            &&& has_editor ==> after == before
            &&& has_editor && editor_focused ==> effects@.len() == 0
            &&& has_editor && !editor_focused ==> effects@.len() == 1
                && effects@[0] is SetMessage
            &&& !has_editor ==> {
                &&& only_entry_changed(before, after, index as int)
                &&& new_views.message_editor is Some
                &&& after.entries[index as int] == EntryView::<H>::UserMessage(
                    new_views.message_editor->0,
                )
                &&& effects@.len() == 0
            }
        }),
{
    assert(effect_views(effects@).len() == effects@.len());
    if effects@.len() > 0 {
        assert(effect_views(effects@)[0] == effects@[0]@);
    }
}

/// A completed plan and a context compaction get a view that says so, whatever view there was.
pub proof fn markers_are_synced<H: Handles>(
    state: &mut EntryViewState<H>,
    index: usize,
    entry: AgentThreadEntry,
    editor_focused: bool,
    new_views: NewViews<H>,
    effects: Vec<SyncEffect<H>>,
)
    requires
        entry is CompletedPlan || entry is ContextCompaction,
        index <= old(state)@.entries.len(),
        supplies(new_views, view_at(old(state)@.entries, index as int), Some(entry)),
        call_ensures(
            EntryViewState::<H>::sync_entry,
            (state, index, Some(&entry), editor_focused, new_views),
            effects,
        ),
    ensures
        only_entry_changed(old(state)@, final(state)@, index as int),
        entry is CompletedPlan ==> final(state)@.entries[index as int] is CompletedPlan,
        entry is ContextCompaction ==> final(state)@.entries[index as int] is ContextCompaction,
        effects@.len() == 0,
{
    assert(effect_views(effects@).len() == effects@.len());
}

/// A message of the assistant that has a view keeps its focus and its scroll handles, and gets those
/// that were created for it otherwise. If its last chunk is a thought, that chunk has a scroll handle
/// from then on, the one it had or the one that was created, and is scrolled to its bottom.
pub proof fn assistant_message_is_synced<H: Handles>(
    state: &mut EntryViewState<H>,
    index: usize,
    message: AssistantMessage,
    editor_focused: bool,
    new_views: NewViews<H>,
    effects: Vec<SyncEffect<H>>,
)
    requires
        index <= old(state)@.entries.len(),
        supplies(
            new_views,
            view_at(old(state)@.entries, index as int),
            Some(AgentThreadEntry::AssistantMessage(message)),
        ),
        call_ensures(
            EntryViewState::<H>::sync_entry,
            (
                state,
                index,
                Some(&AgentThreadEntry::AssistantMessage(message)),
                editor_focused,
                new_views,
            ),
            effects,
        ),
    ensures
        ({
            let (before, after) = (old(state)@, final(state)@);
            let chunks = message.chunks@;
            let thinks = chunks.len() > 0 && chunks[chunks.len() - 1]
                == AssistantMessageChunk::Thought;
            let has_view = index < before.entries.len()
                && before.entries[index as int] is AssistantMessage;
            let handles_before = before.entries[index as int]->scroll_handles;
            &&& only_entry_changed(before, after, index as int)
            &&& after.entries[index as int] is AssistantMessage
            &&& after.entries[index as int]->AssistantMessage_focus == if has_view {
                before.entries[index as int]->AssistantMessage_focus
            } else {
                new_views.focus_handle
            }
            &&& forall|ix: usize|
                #![trigger after.entries[index as int]->scroll_handles.contains_key(ix)]
                {
                    let handles = after.entries[index as int]->scroll_handles;
                    let had = has_view && handles_before.contains_key(ix);
                    let is_last = thinks && ix == chunks.len() - 1;
                    &&& handles.contains_key(ix) <==> had || is_last
                    &&& had ==> handles[ix] == handles_before[ix]
                    &&& !had && is_last ==> handles[ix] == new_views.scroll_handle
                }
            &&& thinks ==> effects@.len() == 1 && effects@[0] == SyncEffect::<H>::ScrollToBottom(
                (chunks.len() - 1) as usize,
            )
            &&& !thinks ==> effects@.len() == 0
        }),
{
    assert(message.chunks.len() == message.chunks@.len());
    assert(effect_views(effects@).len() == effects@.len());
    if effects@.len() > 0 {
        assert(effect_views(effects@)[0] == effects@[0]@);
    }
}

/// A tool call has a view for each of its terminals and diffs once it is synced, and keeps all that
/// it had: nothing that had a view gets another, and nothing else gets one. A view that was created
/// is that of a terminal if a terminal was listed, and else a diff editor.
pub proof fn tool_call_is_synced<H: Handles>(
    state: &mut EntryViewState<H>,
    index: usize,
    call: ToolCall,
    editor_focused: bool,
    new_views: NewViews<H>,
    effects: Vec<SyncEffect<H>>,
)
    requires
        index <= old(state)@.entries.len(),
        supplies(
            new_views,
            view_at(old(state)@.entries, index as int),
            Some(AgentThreadEntry::ToolCall(call)),
        ),
        call_ensures(
            EntryViewState::<H>::sync_entry,
            (state, index, Some(&AgentThreadEntry::ToolCall(call)), editor_focused, new_views),
            effects,
        ),
    ensures
        ({
            let (before, after) = (old(state)@, final(state)@);
            let has_view = index < before.entries.len() && before.entries[index as int] is ToolCall;
            &&& only_entry_changed(before, after, index as int)
            &&& after.entries[index as int] is ToolCall
            &&& after.entries[index as int]->ToolCall_focus == if has_view {
                before.entries[index as int]->ToolCall_focus
            } else {
                new_views.focus_handle
            }
            &&& forall|id: EntityId|
                #![trigger held(after.entries, index as int, id)]
                {
                    let had = held(before.entries, index as int, id);
                    let has = held(after.entries, index as int, id);
                    let terminal = listed_terminal(call, call.terminals@.len() as int, id);
                    &&& had is Some ==> has == had
                    &&& had is None && terminal ==> (has matches Some(ContentView::Terminal(view))
                        && new_views.terminals@.contains(view))
                    &&& had is None && !terminal && call.diffs@.contains(id) ==> (
                    has matches Some(ContentView::DiffEditor(editor))
                        && new_views.diff_editors@.contains(editor))
                    &&& had is None && !terminal && !call.diffs@.contains(id) ==> has is None
                }
        }),
{
    let (before, after) = (old(state)@, final(state)@);
    let own = view_at(before.entries, index as int);
    let content = content_before(own);
    let ids = terminal_ids(call.terminals@);
    let terminals = missing(content.dom(), ids);
    let diffs = missing(keys_with_terminals(content.dom(), call), call.diffs@);
    missing_ids_are_missing(content.dom(), ids);
    missing_ids_are_missing(keys_with_terminals(content.dom(), call), call.diffs@);
    let views = terminal_contents::<H>(new_views.terminals@);
    let middle = with_content(content, terminals, views);
    let editors = diff_contents::<H>(new_views.diff_editors@);
    given_views_are_held(content, terminals, views);
    given_views_are_held(middle, diffs, editors);
    let result = with_content(middle, diffs, editors);
    assert(after.entries[index as int]->ToolCall_content == result);
    assert forall|id: EntityId|
        #![trigger held(after.entries, index as int, id)]
        {
            let had = held(before.entries, index as int, id);
            let has = held(after.entries, index as int, id);
            let terminal = listed_terminal(call, call.terminals@.len() as int, id);
            &&& had is Some ==> has == had
            &&& had is None && terminal ==> (has matches Some(ContentView::Terminal(view))
                && new_views.terminals@.contains(view))
            &&& had is None && !terminal && call.diffs@.contains(id) ==> (has matches Some(
                ContentView::DiffEditor(editor),
            ) && new_views.diff_editors@.contains(editor))
            &&& had is None && !terminal && !call.diffs@.contains(id) ==> has is None
        } by {
        let had = held(before.entries, index as int, id);
        let has = held(after.entries, index as int, id);
        assert(had is Some <==> content.contains_key(id));
        listed_is_contained(call, id);
        assert(has == if result.contains_key(id) {
            Some(result[id])
        } else {
            None
        });
        if content.contains_key(id) {
            assert(!terminals.contains(id));
            assert(!diffs.contains(id));
            assert(middle.contains_key(id));
            assert(result.contains_key(id));
        } else if ids.contains(id) {
            assert(terminals.contains(id));
            assert(ids.to_set().contains(id));
            assert(!diffs.contains(id));
            let j = choose|j: int| 0 <= j < terminals.len() && terminals[j] == id;
            assert(middle.contains_key(terminals[j]));
            assert(result.contains_key(id));
            assert(views[j] == ContentView::<H>::Terminal(new_views.terminals@[j]));
            assert(new_views.terminals@.contains(new_views.terminals@[j]));
        } else {
            assert(!ids.to_set().contains(id));
            assert(!terminals.contains(id));
            assert(!middle.contains_key(id));
            if call.diffs@.contains(id) {
                assert(diffs.contains(id));
                let j = choose|j: int| 0 <= j < diffs.len() && diffs[j] == id;
                assert(result.contains_key(diffs[j]));
                assert(editors[j] == ContentView::<H>::DiffEditor(new_views.diff_editors@[j]));
                assert(new_views.diff_editors@.contains(new_views.diff_editors@[j]));
            } else {
                assert(!diffs.contains(id));
                assert(!result.contains_key(id));
            }
        }
    }
}

/// The views that were created go to the terminals and the diffs for which they were asked, in the
/// order in which these were listed.
pub proof fn created_views_go_where_they_lacked<H: Handles>(
    asked: EntryViewState<H>,
    state: &mut EntryViewState<H>,
    index: usize,
    call: ToolCall,
    info: ThreadInfo,
    lacks: MissingViews,
    editor_focused: bool,
    new_views: NewViews<H>,
    effects: Vec<SyncEffect<H>>,
)
    requires
        asked@ == old(state)@,
        index <= old(state)@.entries.len(),
        call_ensures(
            EntryViewState::<H>::missing_views,
            (&asked, index, Some(&AgentThreadEntry::ToolCall(call)), info),
            lacks,
        ),
        new_views.terminals@.len() == lacks.terminals@.len(),
        new_views.diff_editors@.len() == lacks.diffs@.len(),
        call_ensures(
            EntryViewState::<H>::sync_entry,
            (state, index, Some(&AgentThreadEntry::ToolCall(call)), editor_focused, new_views),
            effects,
        ),
    ensures
        forall|j: int|
            0 <= j < lacks.terminals@.len() ==> held(
                final(state)@.entries,
                index as int,
                #[trigger] lacks.terminals@[j],
            ) == Some(ContentView::<H>::Terminal(new_views.terminals@[j])),
        forall|j: int|
            0 <= j < lacks.diffs@.len() ==> held(
                final(state)@.entries,
                index as int,
                #[trigger] lacks.diffs@[j],
            ) == Some(ContentView::<H>::DiffEditor(new_views.diff_editors@[j])),
{
    let entry = AgentThreadEntry::ToolCall(call);
    sync_keeps_and_adds_views(
        old(state)@.entries,
        index as int,
        entry,
        editor_focused,
        new_views,
    );
}

proof fn listed_is_contained(call: ToolCall, id: EntityId)
    ensures
        listed_terminal(call, call.terminals@.len() as int, id) <==> terminal_ids(
            call.terminals@,
        ).contains(id),
{
    let ids = terminal_ids(call.terminals@);
    if listed_terminal(call, call.terminals@.len() as int, id) {
        let i = choose|i: int|
            0 <= i < call.terminals@.len() && (#[trigger] call.terminals@[i]).id == id;
        assert(ids[i] == id);
    }
    if ids.contains(id) {
        let i = choose|i: int| 0 <= i < ids.len() && ids[i] == id;
        assert(call.terminals@[i].id == id);
    }
}

/// How many of the first `count` terminals of a tool call run on without output though they have a
/// view already: one from before, or one that an earlier place in the list has given them.
pub open spec fn running_on(call: ToolCall, known: Set<EntityId>, count: int) -> nat
    decreases count,
{
    if count <= 0 {
        0
    } else {
        let terminal = call.terminals@[count - 1];
        running_on(call, known, count - 1) + if !terminal.has_output && (known.contains(terminal.id)
            || listed_terminal(call, count - 1, terminal.id)) {
            1nat
        } else {
            0nat
        }
    }
}

/// When a tool call of whatever kind is synced, an event tells of each terminal that gets a view and
/// of each diff that gets an editor. Once the call is completed, and not before, one tells of each
/// terminal that had a view already and is still without output. There are no other effects, and all
/// of them are of that entry and that call.
pub proof fn tool_call_events_are_raised<H: Handles>(
    state: &mut EntryViewState<H>,
    index: usize,
    call: ToolCall,
    editor_focused: bool,
    new_views: NewViews<H>,
    effects: Vec<SyncEffect<H>>,
    known: Set<EntityId>,
)
    requires
        index <= old(state)@.entries.len(),
        supplies(
            new_views,
            view_at(old(state)@.entries, index as int),
            Some(AgentThreadEntry::ToolCall(call)),
        ),
        call_ensures(
            EntryViewState::<H>::sync_entry,
            (state, index, Some(&AgentThreadEntry::ToolCall(call)), editor_focused, new_views),
            effects,
        ),
        forall|id: EntityId| #[trigger]
            known.contains(id) <==> held(old(state)@.entries, index as int, id) is Some,
    ensures
        times_raised(
            effect_views(effects@),
            EventView::<H>::TerminalMovedToBackground(index as int, call.id@),
        ) == if call.status == ToolCallStatus::Completed {
            running_on(call, known, call.terminals@.len() as int)
        } else {
            0
        },
        times_raised(
            effect_views(effects@),
            EventView::<H>::NewTerminal(index as int, call.id@),
        ) == new_views.terminals@.len(),
        times_raised(
            effect_views(effects@),
            EventView::<H>::NewDiff(index as int, call.id@),
        ) == new_views.diff_editors@.len(),
        forall|i: int|
            0 <= i < effects@.len() ==> {
                ||| (#[trigger] effects@[i])@ == EffectView::Emit(
                    EventView::<H>::NewTerminal(index as int, call.id@),
                )
                ||| effects@[i]@ == EffectView::Emit(
                    EventView::<H>::TerminalMovedToBackground(index as int, call.id@),
                )
                ||| effects@[i]@ == EffectView::Emit(
                    EventView::<H>::NewDiff(index as int, call.id@),
                )
            },
        forall|i: int, j: int|
            0 <= i < j < effects@.len() && (#[trigger] effects@[i])@ == EffectView::Emit(
                EventView::<H>::NewDiff(index as int, call.id@),
            ) ==> (#[trigger] effects@[j])@ == EffectView::Emit(
                EventView::<H>::NewDiff(index as int, call.id@),
            ),
{
    let content = content_before(view_at(old(state)@.entries, index as int));
    let keys = content.dom();
    assert(keys =~= known);
    let raised = effect_views(effects@);
    let count = missing(keys_with_terminals(keys, call), call.diffs@).len();
    let moved = EventView::<H>::TerminalMovedToBackground(index as int, call.id@);
    let a = terminal_effects::<H>(index as int, call, keys, call.terminals@);
    let b = diff_effects::<H>(index as int, call, count);
    assert(raised == a + b);
    each_new_view_is_announced_once(index as int, content, call);
    assert(call.terminals@.take(call.terminals@.len() as int) =~= call.terminals@);
    moved_terminals_are_counted::<H>(index as int, call, keys, call.terminals@.len() as int);
    no_diff_is_moved::<H>(index as int, call, count);
    times_raised_adds(a, b, moved);
    terminal_effects_are_of_terminals::<H>(index as int, call, keys, call.terminals@);
    assert forall|i: int| 0 <= i < effects@.len() implies (#[trigger] effects@[i])@ == raised[i] by {}
}

proof fn moved_terminals_are_counted<H: Handles>(
    index: int,
    call: ToolCall,
    keys: Set<EntityId>,
    count: int,
)
    requires
        0 <= count <= call.terminals@.len(),
    ensures
        times_raised(
            terminal_effects::<H>(index, call, keys, call.terminals@.take(count)),
            EventView::<H>::TerminalMovedToBackground(index, call.id@),
        ) == if call.status == ToolCallStatus::Completed {
            running_on(call, keys, count)
        } else {
            0
        },
    decreases count,
{
    let some = call.terminals@.take(count);
    if count > 0 {
        let before = call.terminals@.take(count - 1);
        assert(some.drop_last() =~= before);
        moved_terminals_are_counted::<H>(index, call, keys, count - 1);
        let terminal = some.last();
        let effects = terminal_effects::<H>(index, call, keys, some);
        let fewer = terminal_effects::<H>(index, call, keys, before);
        if effects.len() > fewer.len() {
            assert(effects.drop_last() =~= fewer);
        }
        assert(terminal_ids(before).contains(terminal.id) <==> listed_terminal(
            call,
            count - 1,
            terminal.id,
        )) by {
            let ids = terminal_ids(before);
            if ids.contains(terminal.id) {
                let i = choose|i: int| 0 <= i < ids.len() && ids[i] == terminal.id;
                assert(call.terminals@[i].id == terminal.id);
            }
            if listed_terminal(call, count - 1, terminal.id) {
                let i = choose|i: int|
                    0 <= i < count - 1 && (#[trigger] call.terminals@[i]).id == terminal.id;
                assert(ids[i] == terminal.id);
            }
        }
    }
}

proof fn no_diff_is_moved<H: Handles>(index: int, call: ToolCall, count: nat)
    ensures
        times_raised(
            diff_effects::<H>(index, call, count),
            EventView::<H>::TerminalMovedToBackground(index, call.id@),
        ) == 0,
    decreases count,
{
    if count > 0 {
        no_diff_is_moved::<H>(index, call, (count - 1) as nat);
        assert(diff_effects::<H>(index, call, count).drop_last() =~= diff_effects::<H>(
            index,
            call,
            (count - 1) as nat,
        ));
    }
}

proof fn terminal_effects_are_of_terminals<H: Handles>(
    index: int,
    call: ToolCall,
    keys: Set<EntityId>,
    terminals: Seq<Terminal>,
)
    ensures
        forall|i: int|
            0 <= i < terminal_effects::<H>(index, call, keys, terminals).len() ==> {
                ||| #[trigger] terminal_effects::<H>(index, call, keys, terminals)[i]
                    == EffectView::Emit(EventView::<H>::NewTerminal(index, call.id@))
                ||| terminal_effects::<H>(index, call, keys, terminals)[i] == EffectView::Emit(
                    EventView::<H>::TerminalMovedToBackground(index, call.id@),
                )
            },
    decreases terminals.len(),
{
    if terminals.len() > 0 {
        terminal_effects_are_of_terminals::<H>(index, call, keys, terminals.drop_last());
    }
}

/// A terminal that is listed behind others adds an event behind theirs: that it is new, if it has no
/// view yet and is not listed before; or else, once the call is completed, that it moved to the
/// background, if it has no output; or else none.
pub proof fn one_more_terminal_adds_its_event<H: Handles>(
    index: int,
    call: ToolCall,
    keys: Set<EntityId>,
    terminals: Seq<Terminal>,
    terminal: Terminal,
)
    ensures
        terminal_effects::<H>(index, call, keys, Seq::empty()) == Seq::<EffectView<H>>::empty(),
        ({
            let before = terminal_effects::<H>(index, call, keys, terminals);
            let after = terminal_effects::<H>(index, call, keys, terminals.push(terminal));
            let is_listed = exists|i: int|
                0 <= i < terminals.len() && (#[trigger] terminals[i]).id == terminal.id;
            let is_known = keys.contains(terminal.id) || is_listed;
            &&& !is_known ==> after == before.push(
                EffectView::Emit(EventView::<H>::NewTerminal(index, call.id@)),
            )
            &&& is_known && call.status == ToolCallStatus::Completed && !terminal.has_output
                ==> after == before.push(
                EffectView::Emit(EventView::<H>::TerminalMovedToBackground(index, call.id@)),
            )
            &&& is_known && (call.status != ToolCallStatus::Completed || terminal.has_output)
                ==> after == before
        }),
{
    let ids = terminal_ids(terminals);
    assert(terminals.push(terminal).drop_last() =~= terminals);
    if ids.contains(terminal.id) {
        let i = choose|i: int| 0 <= i < ids.len() && ids[i] == terminal.id;
        assert(terminals[i].id == terminal.id);
    }
    if exists|i: int| 0 <= i < terminals.len() && (#[trigger] terminals[i]).id == terminal.id {
        let i = choose|i: int|
            0 <= i < terminals.len() && (#[trigger] terminals[i]).id == terminal.id;
        assert(ids[i] == terminal.id);
    }
}

/// What an entry lacks: an editor, if it is a message of the user without one, which may be edited
/// exactly if the thread can be rewound to it and is no subagent's; a view for each terminal of a
/// tool call that has none; and an editor for each of its diffs that has none and is no terminal.
/// Each is listed once, in the order in which they first occur in the call.
pub proof fn lacking_views_are_listed<H: Handles>(
    state: EntryViewState<H>,
    index: usize,
    entry: Option<AgentThreadEntry>,
    given: Option<&AgentThreadEntry>,
    info: ThreadInfo,
    lacks: MissingViews,
)
    requires
        given == (match entry {
            Some(entry) => Some(&entry),
            None => None,
        }),
        call_ensures(EntryViewState::<H>::missing_views, (&state, index, given, info), lacks),
    ensures
        ({
            let has_editor = index < state@.entries.len()
                && state@.entries[index as int] is UserMessage;
            &&& match entry {
                Some(AgentThreadEntry::UserMessage(message)) => if has_editor {
                    lacks.message_editor is None
                } else if info.supports_truncate && message.has_client_id && !info.is_subagent {
                    lacks.message_editor == Some(EditorAccess::Editable)
                } else {
                    lacks.message_editor == Some(EditorAccess::ReadOnly)
                },
                _ => lacks.message_editor is None,
            }
            &&& match entry {
                Some(AgentThreadEntry::ToolCall(call)) => {
                    &&& lists_lacking(
                        lacks.terminals@,
                        call.terminals@.map_values(|terminal: Terminal| terminal.id),
                        |id: EntityId| held(state@.entries, index as int, id) is Some,
                    )
                    &&& lists_lacking(
                        lacks.diffs@,
                        call.diffs@,
                        |id: EntityId|
                            held(state@.entries, index as int, id) is Some || listed_terminal(
                                call,
                                call.terminals@.len() as int,
                                id,
                            ),
                    )
                },
                _ => lacks.terminals@.len() == 0 && lacks.diffs@.len() == 0,
            }
        }),
{
    if let Some(AgentThreadEntry::ToolCall(call)) = entry {
        let keys = content_before(view_at(state@.entries, index as int)).dom();
        let ids = terminal_ids(call.terminals@);
        assert(ids =~= call.terminals@.map_values(|terminal: Terminal| terminal.id));
        let known = |id: EntityId| held(state@.entries, index as int, id) is Some;
        let shown = |id: EntityId|
            held(state@.entries, index as int, id) is Some || listed_terminal(
                call,
                call.terminals@.len() as int,
                id,
            );
        assert forall|id: EntityId| known(id) == keys.contains(id) by {}
        assert forall|id: EntityId| shown(id) == keys_with_terminals(keys, call).contains(id) by {
            listed_is_contained(call, id);
            assert(ids.to_set().contains(id) == ids.contains(id));
        }
        missing_is_listed(keys, ids, known);
        missing_is_listed(keys_with_terminals(keys, call), call.diffs@, shown);
    }
}

/// Whether `found` lists those of `ids` that are not known, each of them once, in the order in which
/// they first occur.
pub open spec fn lists_lacking(
    found: Seq<EntityId>,
    ids: Seq<EntityId>,
    known: spec_fn(EntityId) -> bool,
) -> bool {
    &&& forall|id: EntityId| #[trigger] found.contains(id) <==> ids.contains(id) && !known(id)
    &&& forall|i: int, j: int|
        0 <= i < j < found.len() ==> occurs_before(ids, #[trigger] found[i], #[trigger] found[j])
}

/// Whether `a` occurs among `ids` before `b` does for the first time.
pub open spec fn occurs_before(ids: Seq<EntityId>, a: EntityId, b: EntityId) -> bool {
    exists|p: int| 0 <= p < ids.len() && #[trigger] ids[p] == a && !ids.take(p + 1).contains(b)
}

proof fn missing_is_listed(
    keys: Set<EntityId>,
    ids: Seq<EntityId>,
    known: spec_fn(EntityId) -> bool,
)
    requires
        forall|id: EntityId| known(id) == #[trigger] keys.contains(id),
    ensures
        lists_lacking(missing(keys, ids), ids, known),
    decreases ids.len(),
{
    missing_ids_are_missing(keys, ids);
    let found = missing(keys, ids);
    assert forall|id: EntityId| #[trigger] found.contains(id) <==> ids.contains(id) && !known(
        id,
    ) by {
        assert(known(id) == keys.contains(id));
    }
    if ids.len() > 0 {
        let before = ids.drop_last();
        missing_is_listed(keys, before, known);
        let few = missing(keys, before);
        missing_ids_are_missing(keys, before);
        assert forall|i: int, j: int| 0 <= i < j < found.len() implies occurs_before(
            ids,
            #[trigger] found[i],
            #[trigger] found[j],
        ) by {
            assert(few[i] == found[i]);
            assert(few.contains(few[i]));
            if j < few.len() {
                assert(few[j] == found[j]);
                assert(occurs_before(before, few[i], few[j]));
                let p = choose|p: int|
                    0 <= p < before.len() && #[trigger] before[p] == few[i] && !before.take(
                        p + 1,
                    ).contains(few[j]);
                assert(ids[p] == few[i]);
                assert(ids.take(p + 1) =~= before.take(p + 1));
            } else {
                let p = choose|p: int| 0 <= p < before.len() && before[p] == few[i];
                assert(ids[p] == few[i]);
                assert(ids.take(p + 1) =~= before.take(p + 1));
                let first = ids.take(p + 1);
                if first.contains(found[j]) {
                    let q = choose|q: int| 0 <= q < first.len() && first[q] == found[j];
                    assert(before[q] == found[j]);
                }
            }
        }
    }
}

/// Of a message of the assistant, the last chunk is told if it is a thought, and gets a scroll handle
/// unless it has one. Other scroll handles, and the focus, stay.
pub proof fn message_view_follows_its_message<H: Handles>(
    view: &mut AssistantMessageEntry<H>,
    message: AssistantMessage,
    fresh: H::ScrollHandle,
    scrolled: Option<usize>,
)
    requires
        call_ensures(AssistantMessageEntry::<H>::sync, (view, &message, fresh), scrolled),
    ensures
        ({
            let chunks = message.chunks@;
            let before = old(view).scroll_handles_by_chunk_index@;
            let after = final(view).scroll_handles_by_chunk_index@;
            &&& scrolled is Some <==> chunks.len() > 0 && chunks[chunks.len() - 1]
                == AssistantMessageChunk::Thought
            &&& scrolled matches Some(ix) ==> ix == chunks.len() - 1
            &&& forall|ix: usize|
                #![trigger final(view).scroll_handles_by_chunk_index@.contains_key(ix)]
                {
                    &&& after.contains_key(ix) <==> before.contains_key(ix) || scrolled
                        == Some(ix)
                    &&& before.contains_key(ix) ==> after[ix] == before[ix]
                    &&& !before.contains_key(ix) && scrolled == Some(ix) ==> after[ix] == fresh
                }
            &&& final(view).focus_handle == old(view).focus_handle
        }),
{
    assert(message.chunks.len() == message.chunks@.len());
}

/// What is asked of the view of an entry is answered from what it holds.
pub proof fn views_are_told<H: Handles>(
    entry: Entry<H>,
    id: EntityId,
    chunk_ix: usize,
    kind: Option<ContentKind>,
    editor: Option<&H::MessageEditor>,
    handle: Option<&H::ScrollHandle>,
    has_content: bool,
)
    requires
        call_ensures(Entry::<H>::content_kind, (&entry, id), kind),
        call_ensures(Entry::<H>::message_editor, (&entry,), editor),
        call_ensures(
            Entry::<H>::scroll_handle_for_assistant_message_chunk,
            (&entry, chunk_ix),
            handle,
        ),
        call_ensures(Entry::<H>::has_content, (&entry,), has_content),
    ensures
        kind == Some(ContentKind::Terminal) <==> (entry matches Entry::ToolCall(call)
            && call.content@.contains_key(id) && call.content@[id] is Terminal),
        kind == Some(ContentKind::DiffEditor) <==> (entry matches Entry::ToolCall(call)
            && call.content@.contains_key(id) && call.content@[id] is DiffEditor),
        editor is Some <==> entry is UserMessage,
        entry matches Entry::UserMessage(own) ==> editor == Some(&own),
        handle is Some <==> (entry matches Entry::AssistantMessage(message)
            && message.scroll_handles_by_chunk_index@.contains_key(chunk_ix)),
        entry matches Entry::AssistantMessage(message) ==> (handle matches Some(own) ==> *own
            == message.scroll_handles_by_chunk_index@[chunk_ix]),
        has_content ==> (entry matches Entry::ToolCall(call) && exists|other: EntityId|
            call.content@.contains_key(other)),
        (entry matches Entry::ToolCall(call) && exists|other: EntityId|
            call.content@.contains_key(other)) ==> has_content,
{
    if let Entry::ToolCall(call) = entry {
        if call.content@.is_empty() {
            assert forall|other: EntityId| !call.content@.contains_key(other) by {
                assert(call.content@.dom() =~= Set::empty());
            }
        } else {
            assert(exists|other: EntityId| call.content@.contains_key(other)) by {
                if forall|other: EntityId| !call.content@.contains_key(other) {
                    assert(call.content@ =~= Map::empty());
                }
            }
        }
    }
}

/// The editor of a diff and the view of a terminal are found where the tool call holds them.
pub proof fn contents_are_found<H: Handles>(
    entry: Entry<H>,
    diff: EntityId,
    terminal: EntityId,
    editor: Option<&H::DiffEditor>,
    view: Option<&H::TerminalView>,
)
    requires
        entry matches Entry::ToolCall(call) ==> (call.content@.contains_key(diff)
            ==> call.content@[diff] is DiffEditor) && (call.content@.contains_key(terminal)
            ==> call.content@[terminal] is Terminal),
        call_ensures(Entry::<H>::editor_for_diff, (&entry, diff), editor),
        call_ensures(Entry::<H>::terminal, (&entry, terminal), view),
    ensures
        entry matches Entry::ToolCall(call) ==> {
            &&& editor is Some <==> call.content@.contains_key(diff)
            &&& editor matches Some(own) ==> call.content@[diff] == ContentView::<H>::DiffEditor(
                *own,
            )
            &&& view is Some <==> call.content@.contains_key(terminal)
            &&& view matches Some(own) ==> call.content@[terminal] == ContentView::<H>::Terminal(
                *own,
            )
        },
        !(entry is ToolCall) ==> editor is None && view is None,
{
}

/// What is focused to focus an entry is its editor, or the focus that it holds.
pub proof fn focus_is_found<H: Handles>(entry: Entry<H>, target: Option<FocusTarget<H>>)
    requires
        call_ensures(Entry::<H>::focus_handle, (&entry,), target),
    ensures
        match entry {
            Entry::UserMessage(editor) => target == Some(FocusTarget::<H>::Editor(&editor)),
            Entry::AssistantMessage(message) => target == Some(
                FocusTarget::<H>::Handle(&message.focus_handle),
            ),
            Entry::ToolCall(call) => target == Some(FocusTarget::<H>::Handle(&call.focus_handle)),
            Entry::CompletedPlan => target is None,
            Entry::ContextCompaction => target is None,
        },
{
}

/// A diff location is opened exactly if both the path and the position are known, and it is opened
/// there.
pub proof fn diff_location_is_opened<H: Handles>(
    entry_index: usize,
    path: Option<String>,
    position: Option<Point>,
    split: bool,
    event: Option<EntryViewEvent<H>>,
)
    requires
        call_ensures(open_diff_location::<H>, (entry_index, path, position, split), event),
    ensures
        event is Some <==> path is Some && position is Some,
        event matches Some(event) ==> event@ == EventView::<H>::OpenDiffLocation(
            entry_index as int,
            path->0@,
            position->0,
            split,
        ),
{
}

} // verus!
