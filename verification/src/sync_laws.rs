//! What holds of the views of entries after they are synced with the thread.

use vstd::prelude::*;

use crate::entry::{ContentView, EntryView, EventView, Handles};
use crate::sync::{
    call_effects, content_after, content_before, diff_contents, diff_effects, keys_with_terminals,
    lacking, lacking_diffs, lacking_terminals, missing, push_contains, supplies, synced,
    terminal_contents, terminal_effects, terminal_ids, view_at, with_content, with_content_has,
    EffectView, MissingView, NewViews, ThreadInfo,
};
use crate::thread::{AgentThreadEntry, EntityId, Terminal, ToolCall};

verus! {

/// What is missing are the ids that are not among the keys, each of them once.
pub proof fn missing_ids_are_missing(keys: Set<EntityId>, ids: Seq<EntityId>)
    ensures
        missing(keys, ids).no_duplicates(),
        forall|id: EntityId| #[trigger]
            missing(keys, ids).contains(id) <==> ids.contains(id) && !keys.contains(id),
    decreases ids.len(),
{
    if ids.len() > 0 {
        let before = ids.drop_last();
        missing_ids_are_missing(keys, before);
        assert(ids =~= before.push(ids.last()));
        assert forall|id: EntityId| #[trigger]
            missing(keys, ids).contains(id) <==> ids.contains(id) && !keys.contains(id) by {
            push_contains(before, ids.last(), id);
            push_contains(missing(keys, before), ids.last(), id);
        }
        let (few, all) = (missing(keys, before), missing(keys, ids));
        assert forall|i: int, j: int| 0 <= i < j < all.len() implies all[i] != all[j] by {
            assert(few.contains(few[i]));
        }
    }
}

/// Nothing is missing among ids that are all keys.
proof fn nothing_is_missing(keys: Set<EntityId>, ids: Seq<EntityId>)
    requires
        forall|id: EntityId| ids.contains(id) ==> keys.contains(id),
    ensures
        missing(keys, ids) == Seq::<EntityId>::empty(),
{
    missing_ids_are_missing(keys, ids);
    let found = missing(keys, ids);
    if found.len() > 0 {
        assert(found.contains(found[0]));
    }
    assert(found =~= Seq::<EntityId>::empty());
}

/// Content that has been given views holds each under its identifier, and beside them what it held.
pub proof fn given_views_are_held<H: Handles>(
    content: Map<EntityId, ContentView<H>>,
    ids: Seq<EntityId>,
    views: Seq<ContentView<H>>,
)
    requires
        ids.no_duplicates(),
        ids.len() <= views.len(),
    ensures
        forall|j: int|
            0 <= j < ids.len() ==> with_content(content, ids, views).contains_key(
                #[trigger] ids[j],
            ) && with_content(content, ids, views)[ids[j]] == views[j],
        forall|id: EntityId|
            !ids.contains(id) ==> #[trigger] with_content(content, ids, views).contains_key(id)
                == content.contains_key(id) && (content.contains_key(id) ==> with_content(
                content,
                ids,
                views,
            )[id] == content[id]),
    decreases ids.len(),
{
    if ids.len() > 0 {
        let before = ids.drop_last();
        given_views_are_held(content, before, views);
        assert(ids =~= before.push(ids.last()));
        assert forall|id: EntityId| !ids.contains(id) implies #[trigger] with_content(
            content,
            ids,
            views,
        ).contains_key(id) == content.contains_key(id) && (content.contains_key(id)
            ==> with_content(content, ids, views)[id] == content[id]) by {
            push_contains(before, ids.last(), id);
            let fewer = with_content(content, before, views);
            assert(fewer.contains_key(id) == content.contains_key(id));
            assert(with_content(content, ids, views) == fewer.insert(
                ids.last(),
                views[ids.len() - 1],
            ));
        }
        assert forall|j: int| 0 <= j < ids.len() implies with_content(
            content,
            ids,
            views,
        ).contains_key(#[trigger] ids[j]) && with_content(content, ids, views)[ids[j]]
            == views[j] by {
            if j < before.len() {
                assert(before[j] == ids[j]);
            }
        }
    }
}

/// The keys of the content of a tool call once it is synced.
proof fn keys_after<H: Handles>(
    content: Map<EntityId, ContentView<H>>,
    call: ToolCall,
    terminals: Seq<H::TerminalView>,
    diff_editors: Seq<H::DiffEditor>,
)
    ensures
        content_after(content, call, terminals, diff_editors).dom() == keys_with_terminals(
            content.dom(),
            call,
        ).union(call.diffs@.to_set()),
{
    let ids = terminal_ids(call.terminals@);
    let views = terminal_contents::<H>(terminals);
    with_content_has(content, ids, views);
    with_content_has(
        with_content(content, missing(content.dom(), ids), views),
        call.diffs@,
        diff_contents::<H>(diff_editors),
    );
}

/// A tool call whose content has all its views lacks none.
proof fn complete_call_lacks_nothing(keys: Set<EntityId>, call: ToolCall)
    requires
        forall|id: EntityId| terminal_ids(call.terminals@).contains(id) ==> keys.contains(id),
        forall|id: EntityId| call.diffs@.contains(id) ==> keys.contains(id),
    ensures
        missing(keys, terminal_ids(call.terminals@)) == Seq::<EntityId>::empty(),
        missing(keys_with_terminals(keys, call), call.diffs@) == Seq::<EntityId>::empty(),
{
    nothing_is_missing(keys, terminal_ids(call.terminals@));
    nothing_is_missing(keys_with_terminals(keys, call), call.diffs@);
}

/// Once an entry is synced, it has all its views.
pub proof fn synced_entry_lacks_nothing<H: Handles>(
    entries: Seq<EntryView<H>>,
    index: int,
    entry: AgentThreadEntry,
    editor_focused: bool,
    new_views: NewViews<H>,
    info: ThreadInfo,
)
    requires
        0 <= index <= entries.len(),
        supplies(new_views, view_at(entries, index), Some(entry)),
    ensures
        ({
            let after = synced(entries, index, Some(entry), editor_focused, new_views).0;
            lacking(view_at(after, index), Some(entry), info) == (MissingView {
                message_editor: None,
                terminals: Seq::empty(),
                diffs: Seq::empty(),
            })
        }),
{
    if let AgentThreadEntry::ToolCall(call) = entry {
        let content = content_before(view_at(entries, index));
        keys_after(content, call, new_views.terminals@, new_views.diff_editors@);
        let keys = content_after(
            content,
            call,
            new_views.terminals@,
            new_views.diff_editors@,
        ).dom();
        assert forall|id: EntityId| call.diffs@.contains(id) implies keys.contains(id) by {
            assert(call.diffs@.to_set().contains(id));
        }
        assert forall|id: EntityId| terminal_ids(call.terminals@).contains(
            id,
        ) implies keys.contains(id) by {
            assert(terminal_ids(call.terminals@).to_set().contains(id));
        }
        complete_call_lacks_nothing(keys, call);
    }
}

/// Syncing an entry leaves the views of all others alone.
pub proof fn sync_leaves_other_entries_alone<H: Handles>(
    entries: Seq<EntryView<H>>,
    index: int,
    entry: Option<AgentThreadEntry>,
    editor_focused: bool,
    new_views: NewViews<H>,
)
    requires
        0 <= index <= entries.len(),
    ensures
        ({
            let after = synced(entries, index, entry, editor_focused, new_views).0;
            &&& entries.len() <= after.len() <= entries.len() + 1
            &&& forall|i: int|
                0 <= i < entries.len() && i != index ==> #[trigger] after[i] == entries[i]
        }),
{
}

/// Syncing an entry keeps the views that it has, and gives it those that have been created, each
/// for the terminal or the diff that lacked it.
pub proof fn sync_keeps_and_adds_views<H: Handles>(
    entries: Seq<EntryView<H>>,
    index: int,
    entry: AgentThreadEntry,
    editor_focused: bool,
    new_views: NewViews<H>,
)
    requires
        0 <= index <= entries.len(),
        entry is ToolCall,
        supplies(new_views, view_at(entries, index), Some(entry)),
    ensures
        ({
            let own = view_at(entries, index);
            let after = synced(entries, index, Some(entry), editor_focused, new_views).0[index];
            let terminals = lacking_terminals(own, Some(entry));
            let diffs = lacking_diffs(own, Some(entry));
            &&& forall|id: EntityId| #[trigger]
                content_before(own).contains_key(id) ==> after.content_at(id) == Some(
                    content_before(own)[id],
                )
            &&& forall|j: int|
                0 <= j < terminals.len() ==> after.content_at(#[trigger] terminals[j]) == Some(
                    ContentView::<H>::Terminal(new_views.terminals@[j]),
                )
            &&& forall|j: int|
                0 <= j < diffs.len() ==> after.content_at(#[trigger] diffs[j]) == Some(
                    ContentView::<H>::DiffEditor(new_views.diff_editors@[j]),
                )
        }),
{
    let own = view_at(entries, index);
    let content = content_before(own);
    let after = synced(entries, index, Some(entry), editor_focused, new_views).0[index];
    let terminals = lacking_terminals(own, Some(entry));
    let diffs = lacking_diffs(own, Some(entry));
    if let AgentThreadEntry::ToolCall(call) = entry {
        let ids = terminal_ids(call.terminals@);
        missing_ids_are_missing(content.dom(), ids);
        missing_ids_are_missing(keys_with_terminals(content.dom(), call), call.diffs@);
        let views = terminal_contents::<H>(new_views.terminals@);
        let middle = with_content(content, terminals, views);
        let editors = diff_contents::<H>(new_views.diff_editors@);
        given_views_are_held(content, terminals, views);
        given_views_are_held(middle, diffs, editors);
        assert(after == (EntryView::<H>::ToolCall {
            content: with_content(middle, diffs, editors),
            focus: after->ToolCall_focus,
        }));
        assert forall|id: EntityId| #[trigger] content.contains_key(id) implies after.content_at(id)
            == Some(content[id]) by {
            assert(!terminals.contains(id));
            assert(!diffs.contains(id));
            assert(with_content(middle, diffs, editors).contains_key(id));
        }
        assert forall|j: int| 0 <= j < terminals.len() implies after.content_at(
            #[trigger] terminals[j],
        ) == Some(ContentView::<H>::Terminal(new_views.terminals@[j])) by {
            let id = terminals[j];
            assert(terminals.contains(id));
            assert(ids.to_set().contains(id));
            assert(!diffs.contains(id));
            assert(with_content(middle, diffs, editors).contains_key(id));
        }
        assert forall|j: int| 0 <= j < diffs.len() implies after.content_at(#[trigger] diffs[j])
            == Some(ContentView::<H>::DiffEditor(new_views.diff_editors@[j])) by {}
    }
}

/// Whether an effect announces a new terminal or a new diff.
pub open spec fn announces<H: Handles>(effect: EffectView<H>) -> bool {
    effect matches EffectView::Emit(event) && (event is NewTerminal || event is NewDiff)
}

/// Syncing an entry that is in step already changes no view and announces none.
pub proof fn sync_settles<H: Handles>(
    entries: Seq<EntryView<H>>,
    index: int,
    entry: AgentThreadEntry,
    focused_before: bool,
    focused_now: bool,
    new_views: NewViews<H>,
    other_views: NewViews<H>,
)
    requires
        0 <= index <= entries.len(),
        supplies(new_views, view_at(entries, index), Some(entry)),
        other_views.terminals@.len() == 0,
        other_views.diff_editors@.len() == 0,
    ensures
        ({
            let once = synced(entries, index, Some(entry), focused_before, new_views).0;
            let (twice, effects) = synced(once, index, Some(entry), focused_now, other_views);
            &&& supplies(other_views, view_at(once, index), Some(entry))
            &&& twice == once
            &&& forall|i: int| 0 <= i < effects.len() ==> !announces(#[trigger] effects[i])
        }),
{
    let once = synced(entries, index, Some(entry), focused_before, new_views).0;
    let (twice, effects) = synced(once, index, Some(entry), focused_now, other_views);
    let info = ThreadInfo { supports_truncate: false, is_subagent: false };
    synced_entry_lacks_nothing(entries, index, entry, focused_before, new_views, info);
    let lacks = lacking(view_at(once, index), Some(entry), info);
    assert(lacks.message_editor is None);
    assert(lacks.terminals.len() == 0);
    assert(lacks.diffs.len() == 0);
    if let AgentThreadEntry::ToolCall(call) = entry {
        let keys = content_before(view_at(once, index)).dom();
        nothing_new_is_announced::<H>(index, call, keys, call.terminals@);
        assert(diff_effects::<H>(index, call, 0) =~= Seq::empty());
    }
    assert(twice =~= once);
}

/// Where no terminal lacks a view, no new terminal is announced.
proof fn nothing_new_is_announced<H: Handles>(
    index: int,
    call: ToolCall,
    keys: Set<EntityId>,
    terminals: Seq<Terminal>,
)
    requires
        missing(keys, terminal_ids(terminals)).len() == 0,
    ensures
        forall|i: int|
            0 <= i < terminal_effects::<H>(index, call, keys, terminals).len() ==> !announces(
                #[trigger] terminal_effects::<H>(index, call, keys, terminals)[i],
            ),
    decreases terminals.len(),
{
    if terminals.len() > 0 {
        assert(terminal_ids(terminals).drop_last() =~= terminal_ids(terminals.drop_last()));
        nothing_new_is_announced::<H>(index, call, keys, terminals.drop_last());
        let effects = terminal_effects::<H>(index, call, keys, terminals);
        let fewer = terminal_effects::<H>(index, call, keys, terminals.drop_last());
        assert forall|i: int| 0 <= i < effects.len() implies !announces(#[trigger] effects[i]) by {
            if i < fewer.len() {
                assert(effects[i] == fewer[i]);
            }
        }
    }
}

/// How often an event is raised.
pub open spec fn times_raised<H: Handles>(effects: Seq<EffectView<H>>, event: EventView<H>) -> nat
    decreases effects.len(),
{
    if effects.len() == 0 {
        0
    } else {
        times_raised(effects.drop_last(), event) + if effects.last() == EffectView::Emit(event) {
            1nat
        } else {
            0nat
        }
    }
}

pub proof fn times_raised_adds<H: Handles>(
    a: Seq<EffectView<H>>,
    b: Seq<EffectView<H>>,
    event: EventView<H>,
)
    ensures
        times_raised(a + b, event) == times_raised(a, event) + times_raised(b, event),
    decreases b.len(),
{
    if b.len() == 0 {
        assert(a + b =~= a);
    } else {
        assert((a + b).drop_last() =~= a + b.drop_last());
        times_raised_adds(a, b.drop_last(), event);
    }
}

/// Syncing a tool call announces each terminal that gets its view, and each diff that gets its
/// editor, once.
pub proof fn each_new_view_is_announced_once<H: Handles>(
    index: int,
    content: Map<EntityId, ContentView<H>>,
    call: ToolCall,
)
    ensures
        times_raised(
            call_effects(index, content, call),
            EventView::<H>::NewTerminal(index, call.id@),
        ) == missing(content.dom(), terminal_ids(call.terminals@)).len(),
        times_raised(
            call_effects(index, content, call),
            EventView::<H>::NewDiff(index, call.id@),
        ) == missing(keys_with_terminals(content.dom(), call), call.diffs@).len(),
{
    let count = missing(keys_with_terminals(content.dom(), call), call.diffs@).len();
    let a = terminal_effects::<H>(index, call, content.dom(), call.terminals@);
    let b = diff_effects::<H>(index, call, count);
    terminals_announced::<H>(index, call, content.dom(), call.terminals@);
    diffs_announced::<H>(index, call, count);
    times_raised_adds(a, b, EventView::<H>::NewTerminal(index, call.id@));
    times_raised_adds(a, b, EventView::<H>::NewDiff(index, call.id@));
}

proof fn terminals_announced<H: Handles>(
    index: int,
    call: ToolCall,
    keys: Set<EntityId>,
    terminals: Seq<Terminal>,
)
    ensures
        times_raised(
            terminal_effects::<H>(index, call, keys, terminals),
            EventView::<H>::NewTerminal(index, call.id@),
        ) == missing(keys, terminal_ids(terminals)).len(),
        times_raised(
            terminal_effects::<H>(index, call, keys, terminals),
            EventView::<H>::NewDiff(index, call.id@),
        ) == 0,
    decreases terminals.len(),
{
    if terminals.len() > 0 {
        let before = terminals.drop_last();
        let effects = terminal_effects::<H>(index, call, keys, terminals);
        let fewer = terminal_effects::<H>(index, call, keys, before);
        assert(terminal_ids(terminals).drop_last() =~= terminal_ids(before));
        terminals_announced::<H>(index, call, keys, before);
        if effects.len() > fewer.len() {
            assert(effects.drop_last() =~= fewer);
        }
    }
}

proof fn diffs_announced<H: Handles>(index: int, call: ToolCall, count: nat)
    ensures
        times_raised(
            diff_effects::<H>(index, call, count),
            EventView::<H>::NewTerminal(index, call.id@),
        ) == 0,
        times_raised(
            diff_effects::<H>(index, call, count),
            EventView::<H>::NewDiff(index, call.id@),
        ) == count,
    decreases count,
{
    if count > 0 {
        diffs_announced::<H>(index, call, (count - 1) as nat);
        assert(diff_effects::<H>(index, call, count).drop_last() =~= diff_effects::<H>(
            index,
            call,
            (count - 1) as nat,
        ));
    }
}

} // verus!
