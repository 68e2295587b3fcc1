//! Keeping the views of entries in step with the thread.

use std::collections::HashMap;

use vstd::prelude::*;

use crate::entry::{
    last_thought, with_scroll_handle, ContentView, EntryView, EntryViewEvent, EventView, Handles,
    ToolCallEntry, ViewEvent,
};
use crate::thread::{AgentThreadEntry, EntityId, Terminal, ToolCall, ToolCallStatus};

verus! {

/// What the view state asks of the thread that an entry belongs to.
#[derive(Clone, Copy, Debug)]
pub struct ThreadInfo {
    /// Whether the thread can be rewound to a message.
    pub supports_truncate: bool,
    /// Whether the thread is that of a subagent.
    pub is_subagent: bool,
}

/// Whether the user may edit a message.
#[derive(Clone, Copy, Debug, PartialEq, Eq, Structural)]
pub enum EditorAccess {
    Editable,
    ReadOnly,
}

/// The views that have to be created for an entry before it can be synced.
#[derive(Debug)]
pub struct MissingViews {
    pub message_editor: Option<EditorAccess>,
    pub terminals: Vec<EntityId>,
    pub diffs: Vec<EntityId>,
}

/// What a [`MissingViews`] lists.
#[verifier::ext_equal]
pub struct MissingView {
    pub message_editor: Option<EditorAccess>,
    pub terminals: Seq<EntityId>,
    pub diffs: Seq<EntityId>,
}

impl View for MissingViews {
    type V = MissingView;

    open spec fn view(&self) -> MissingView {
        MissingView {
            message_editor: self.message_editor,
            terminals: self.terminals@,
            diffs: self.diffs@,
        }
    }
}

/// The views that have been created for an entry, in the order in which they were listed, and
/// handles for a view that is new.
pub struct NewViews<H: Handles> {
    pub message_editor: Option<H::MessageEditor>,
    pub terminals: Vec<H::TerminalView>,
    pub diff_editors: Vec<H::DiffEditor>,
    pub focus_handle: H::FocusHandle,
    pub scroll_handle: H::ScrollHandle,
}

/// What is to be done once an entry is synced.
pub enum SyncEffect<H: Handles> {
    /// Show the message in the editor that the entry has for it.
    SetMessage,
    /// Raise an event.
    Emit(EntryViewEvent<H>),
    /// Scroll a chunk of the entry to its bottom.
    ScrollToBottom(usize),
}

/// What a [`SyncEffect`] is.
pub enum EffectView<H: Handles> {
    SetMessage,
    Emit(EventView<H>),
    ScrollToBottom(usize),
}

impl<H: Handles> View for SyncEffect<H> {
    type V = EffectView<H>;

    open spec fn view(&self) -> EffectView<H> {
        match self {
            SyncEffect::SetMessage => EffectView::SetMessage,
            SyncEffect::Emit(event) => EffectView::Emit(event@),
            SyncEffect::ScrollToBottom(chunk_ix) => EffectView::ScrollToBottom(*chunk_ix),
        }
    }
}

/// What each of some effects is.
pub open spec fn effect_views<H: Handles>(effects: Seq<SyncEffect<H>>) -> Seq<EffectView<H>> {
    effects.map_values(|effect: SyncEffect<H>| effect@)
}

/// The identifiers of some terminals.
pub open spec fn terminal_ids(terminals: Seq<Terminal>) -> Seq<EntityId> {
    terminals.map_values(|terminal: Terminal| terminal.id)
}

/// Those of `ids` that are not among `keys`, each of them once, in order.
pub open spec fn missing(keys: Set<EntityId>, ids: Seq<EntityId>) -> Seq<EntityId>
    decreases ids.len(),
{
    if ids.len() == 0 {
        Seq::empty()
    } else if keys.contains(ids.last()) || ids.drop_last().contains(ids.last()) {
        missing(keys, ids.drop_last())
    } else {
        missing(keys, ids.drop_last()).push(ids.last())
    }
}

/// Content, with a view for each of `ids`.
pub open spec fn with_content<H: Handles>(
    content: Map<EntityId, ContentView<H>>,
    ids: Seq<EntityId>,
    views: Seq<ContentView<H>>,
) -> Map<EntityId, ContentView<H>>
    decreases ids.len(),
{
    if ids.len() == 0 {
        content
    } else {
        with_content(content, ids.drop_last(), views).insert(ids.last(), views[ids.len() - 1])
    }
}

/// The effects of syncing terminals: an event for each one that is new, and one for each other that
/// is still without output though the tool call has completed.
pub open spec fn terminal_effects<H: Handles>(
    entry_ix: int,
    call: ToolCall,
    keys: Set<EntityId>,
    terminals: Seq<Terminal>,
) -> Seq<EffectView<H>>
    decreases terminals.len(),
{
    if terminals.len() == 0 {
        Seq::empty()
    } else {
        let before = terminal_effects(entry_ix, call, keys, terminals.drop_last());
        let terminal = terminals.last();
        if !keys.contains(terminal.id) && !terminal_ids(terminals.drop_last()).contains(
            terminal.id,
        ) {
            before.push(EffectView::Emit(EventView::NewTerminal(entry_ix, call.id@)))
        } else if call.status == ToolCallStatus::Completed && !terminal.has_output {
            before.push(EffectView::Emit(EventView::TerminalMovedToBackground(entry_ix, call.id@)))
        } else {
            before
        }
    }
}

/// The effects of syncing diffs: an event for each one that is new.
pub open spec fn diff_effects<H: Handles>(entry_ix: int, call: ToolCall, count: nat) -> Seq<
    EffectView<H>,
> {
    Seq::new(count, |i: int| EffectView::Emit(EventView::NewDiff(entry_ix, call.id@)))
}

/// The identifiers that content has once the terminals of a tool call are synced.
pub open spec fn keys_with_terminals(keys: Set<EntityId>, call: ToolCall) -> Set<EntityId> {
    keys.union(terminal_ids(call.terminals@).to_set())
}

/// The view of the entry at `index`.
pub open spec fn view_at<H: Handles>(entries: Seq<EntryView<H>>, index: int) -> Option<
    EntryView<H>,
> {
    if 0 <= index < entries.len() {
        Some(entries[index])
    } else {
        None
    }
}

/// The content of a tool call that has a view, and none else.
pub open spec fn content_before<H: Handles>(entry: Option<EntryView<H>>) -> Map<
    EntityId,
    ContentView<H>,
> {
    match entry {
        Some(EntryView::ToolCall { content, .. }) => content,
        _ => Map::empty(),
    }
}

/// Whether an entry of the thread lacks an editor for its message.
pub open spec fn lacks_editor<H: Handles>(
    own: Option<EntryView<H>>,
    entry: Option<AgentThreadEntry>,
) -> bool {
    entry matches Some(AgentThreadEntry::UserMessage(_)) && !(own matches Some(
        EntryView::UserMessage(_),
    ))
}

/// The terminals of an entry of the thread that lack a view.
pub open spec fn lacking_terminals<H: Handles>(
    own: Option<EntryView<H>>,
    entry: Option<AgentThreadEntry>,
) -> Seq<EntityId> {
    match entry {
        Some(AgentThreadEntry::ToolCall(call)) => missing(
            content_before(own).dom(),
            terminal_ids(call.terminals@),
        ),
        _ => Seq::empty(),
    }
}

/// The diffs of an entry of the thread that lack an editor once its terminals have their views.
pub open spec fn lacking_diffs<H: Handles>(
    own: Option<EntryView<H>>,
    entry: Option<AgentThreadEntry>,
) -> Seq<EntityId> {
    match entry {
        Some(AgentThreadEntry::ToolCall(call)) => missing(
            keys_with_terminals(content_before(own).dom(), call),
            call.diffs@,
        ),
        _ => Seq::empty(),
    }
}

/// Whether the user may edit the message of an entry: only if the thread can be rewound to it and
/// is not that of a subagent.
pub open spec fn editor_access(entry: Option<AgentThreadEntry>, info: ThreadInfo) -> EditorAccess {
    if entry matches Some(AgentThreadEntry::UserMessage(message)) && info.supports_truncate
        && message.has_client_id && !info.is_subagent {
        EditorAccess::Editable
    } else {
        EditorAccess::ReadOnly
    }
}

/// The views that an entry of the thread lacks, where `own` is the view that it has.
pub open spec fn lacking<H: Handles>(
    own: Option<EntryView<H>>,
    entry: Option<AgentThreadEntry>,
    info: ThreadInfo,
) -> MissingView {
    MissingView {
        message_editor: if lacks_editor(own, entry) {
            Some(editor_access(entry, info))
        } else {
            None
        },
        terminals: lacking_terminals(own, entry),
        diffs: lacking_diffs(own, entry),
    }
}

/// Terminal views, as views among the content of a tool call.
pub open spec fn terminal_contents<H: Handles>(views: Seq<H::TerminalView>) -> Seq<ContentView<H>> {
    views.map_values(|view: H::TerminalView| ContentView::Terminal(view))
}

/// Diff editors, as views among the content of a tool call.
pub open spec fn diff_contents<H: Handles>(editors: Seq<H::DiffEditor>) -> Seq<ContentView<H>> {
    editors.map_values(|editor: H::DiffEditor| ContentView::DiffEditor(editor))
}

/// The content of a tool call once it is synced.
pub open spec fn content_after<H: Handles>(
    content: Map<EntityId, ContentView<H>>,
    call: ToolCall,
    terminals: Seq<H::TerminalView>,
    diff_editors: Seq<H::DiffEditor>,
) -> Map<EntityId, ContentView<H>> {
    with_content(
        with_content(
            content,
            missing(content.dom(), terminal_ids(call.terminals@)),
            terminal_contents::<H>(terminals),
        ),
        missing(keys_with_terminals(content.dom(), call), call.diffs@),
        diff_contents::<H>(diff_editors),
    )
}

/// What is to be done once a tool call is synced.
pub open spec fn call_effects<H: Handles>(
    entry_ix: int,
    content: Map<EntityId, ContentView<H>>,
    call: ToolCall,
) -> Seq<EffectView<H>> {
    terminal_effects::<H>(entry_ix, call, content.dom(), call.terminals@) + diff_effects::<H>(
        entry_ix,
        call,
        missing(keys_with_terminals(content.dom(), call), call.diffs@).len(),
    )
}

/// Entries with one more at their end, or one of them replaced.
pub open spec fn put<H: Handles>(
    entries: Seq<EntryView<H>>,
    index: int,
    entry: EntryView<H>,
) -> Seq<EntryView<H>> {
    if index == entries.len() {
        entries.push(entry)
    } else {
        entries.update(index, entry)
    }
}

/// The views of entries once the one at `index` is synced, and what is to be done then.
pub open spec fn synced<H: Handles>(
    entries: Seq<EntryView<H>>,
    index: int,
    entry: Option<AgentThreadEntry>,
    editor_focused: bool,
    new_views: NewViews<H>,
) -> (Seq<EntryView<H>>, Seq<EffectView<H>>) {
    let own = view_at(entries, index);
    match entry {
        None => (entries, Seq::empty()),
        Some(AgentThreadEntry::UserMessage(_)) => match (own, new_views.message_editor) {
            (Some(EntryView::UserMessage(_)), _) => (
                entries,
                if editor_focused {
                    Seq::empty()
                } else {
                    seq![EffectView::SetMessage]
                },
            ),
            (_, Some(editor)) => (put(entries, index, EntryView::UserMessage(editor)), Seq::empty()),
            (_, None) => (entries, Seq::empty()),
        },
        Some(AgentThreadEntry::ToolCall(call)) => (
            put(
                entries,
                index,
                EntryView::ToolCall {
                    content: content_after(
                        content_before(own),
                        call,
                        new_views.terminals@,
                        new_views.diff_editors@,
                    ),
                    focus: match own {
                        Some(EntryView::ToolCall { focus, .. }) => focus,
                        _ => new_views.focus_handle,
                    },
                },
            ),
            call_effects(index, content_before(own), call),
        ),
        Some(AgentThreadEntry::AssistantMessage(message)) => {
            let last = last_thought(message.chunks@);
            (
                put(
                    entries,
                    index,
                    match own {
                        Some(EntryView::AssistantMessage { scroll_handles, focus }) => {
                            EntryView::AssistantMessage {
                                scroll_handles: with_scroll_handle(
                                    scroll_handles,
                                    last,
                                    new_views.scroll_handle,
                                ),
                                focus,
                            }
                        },
                        _ => EntryView::AssistantMessage {
                            scroll_handles: with_scroll_handle(
                                Map::empty(),
                                last,
                                new_views.scroll_handle,
                            ),
                            focus: new_views.focus_handle,
                        },
                    },
                ),
                match last {
                    Some(chunk_ix) => seq![EffectView::ScrollToBottom(chunk_ix)],
                    None => Seq::empty(),
                },
            )
        },
        Some(AgentThreadEntry::CompletedPlan) => (
            put(entries, index, EntryView::CompletedPlan),
            Seq::empty(),
        ),
        Some(AgentThreadEntry::ContextCompaction) => (
            put(entries, index, EntryView::ContextCompaction),
            Seq::empty(),
        ),
    }
}

/// Whether the views that an entry lacks are all there.
pub open spec fn supplies<H: Handles>(
    new_views: NewViews<H>,
    own: Option<EntryView<H>>,
    entry: Option<AgentThreadEntry>,
) -> bool {
    &&& lacks_editor(own, entry) ==> new_views.message_editor is Some
    &&& new_views.terminals@.len() == lacking_terminals(own, entry).len()
    &&& new_views.diff_editors@.len() == lacking_diffs(own, entry).len()
}

/// What an optional reference refers to.
pub open spec fn referred(entry: Option<&AgentThreadEntry>) -> Option<AgentThreadEntry> {
    match entry {
        Some(entry) => Some(*entry),
        None => None,
    }
}

/// The views that a tool call lacks.
pub fn missing_call_views<H: Handles>(
    content: Option<&HashMap<EntityId, ContentView<H>>>,
    call: &ToolCall,
) -> (lacks: MissingViews)
    ensures
        ({
            let keys: Set<EntityId> = match content {
                Some(content) => content@.dom(),
                None => Set::empty(),
            };
            &&& lacks.message_editor is None
            &&& lacks.terminals@ == missing(keys, terminal_ids(call.terminals@))
            &&& lacks.diffs@ == missing(keys_with_terminals(keys, *call), call.diffs@)
        }),
{
    let ghost keys: Set<EntityId> = match content {
        Some(content) => content@.dom(),
        None => Set::empty(),
    };
    let none: Vec<EntityId> = Vec::new();
    assert(keys.union(none@.to_set()) =~= keys);
    let ids = ids_of(&call.terminals);
    MissingViews {
        message_editor: None,
        terminals: missing_ids(content, &none, &ids),
        diffs: missing_ids(content, &ids, &call.diffs),
    }
}

fn is_among_first(ids: &Vec<EntityId>, count: usize, id: EntityId) -> (among: bool)
    requires
        count <= ids@.len(),
    ensures
        among == ids@.take(count as int).contains(id),
{
    let ghost first = ids@.take(count as int);
    let mut i: usize = 0;
    while i < count
        invariant
            i <= count <= ids@.len(),
            first == ids@.take(count as int),
            forall|j: int| 0 <= j < i ==> first[j] != id,
        decreases count - i,
    {
        if ids[i] == id {
            assert(first[i as int] == id);
            return true;
        }
        i += 1;
    }
    false
}

/// Those of `ids` that neither `content` nor `earlier` has, each of them once, in order.
fn missing_ids<H: Handles>(
    content: Option<&HashMap<EntityId, ContentView<H>>>,
    earlier: &Vec<EntityId>,
    ids: &Vec<EntityId>,
) -> (found: Vec<EntityId>)
    ensures
        found@ == missing(
            match content {
                Some(content) => content@.dom(),
                None => Set::empty(),
            }.union(earlier@.to_set()),
            ids@,
        ),
{
    broadcast use vstd::std_specs::hash::group_hash_axioms;

    let ghost own: Set<EntityId> = match content {
        Some(content) => content@.dom(),
        None => Set::empty(),
    };
    let ghost keys = own.union(earlier@.to_set());
    let mut found: Vec<EntityId> = Vec::new();
    let mut i: usize = 0;
    while i < ids.len()
        invariant
            i <= ids@.len(),
            own == (match content {
                Some(content) => content@.dom(),
                None => Set::empty(),
            }),
            keys == own.union(earlier@.to_set()),
            found@ == missing(keys, ids@.take(i as int)),
        decreases ids@.len() - i,
    {
        let id: EntityId = ids[i];
        let has_view = match content {
            Some(content) => content.contains_key(&id),
            None => false,
        };
        let known = has_view || is_among_first(earlier, earlier.len(), id) || is_among_first(
            ids,
            i,
            id,
        );
        proof {
            assert(earlier@.take(earlier@.len() as int) =~= earlier@);
            let next = ids@.take(i + 1);
            assert(next.drop_last() =~= ids@.take(i as int));
            assert(next.last() == id);
        }
        if !known {
            found.push(id);
        }
        i += 1;
    }
    assert(ids@.take(i as int) =~= ids@);
    found
}

fn ids_of(terminals: &Vec<Terminal>) -> (ids: Vec<EntityId>)
    ensures
        ids@ == terminal_ids(terminals@),
{
    let mut ids: Vec<EntityId> = Vec::new();
    let mut i: usize = 0;
    while i < terminals.len()
        invariant
            i <= terminals@.len(),
            ids@ == terminal_ids(terminals@.take(i as int)),
        decreases terminals@.len() - i,
    {
        ids.push(terminals[i].id);
        assert(terminals@.take(i + 1) =~= terminals@.take(i as int).push(terminals@[i as int]));
        i += 1;
        assert(ids@ =~= terminal_ids(terminals@.take(i as int)));
    }
    assert(terminals@.take(i as int) =~= terminals@);
    ids
}

/// What is missing among the first ids is what is first missing.
proof fn missing_grows(keys: Set<EntityId>, ids: Seq<EntityId>, i: int)
    requires
        0 <= i <= ids.len(),
    ensures
        missing(keys, ids.take(i)).len() <= missing(keys, ids).len(),
        missing(keys, ids).take(missing(keys, ids.take(i)).len() as int) == missing(
            keys,
            ids.take(i),
        ),
    decreases ids.len() - i,
{
    let some = missing(keys, ids.take(i));
    if i < ids.len() {
        missing_grows(keys, ids, i + 1);
        let next = ids.take(i + 1);
        assert(next.drop_last() =~= ids.take(i));
        let all = missing(keys, ids);
        assert(missing(keys, next).take(some.len() as int) =~= some);
        assert(all.take(missing(keys, next).len() as int).take(some.len() as int) =~= all.take(
            some.len() as int,
        ));
    } else {
        assert(ids.take(i) =~= ids);
        assert(some.take(some.len() as int) =~= some);
    }
}

/// Content has the identifiers that it had, and those for which it has been given views.
pub proof fn with_content_has<H: Handles>(
    content: Map<EntityId, ContentView<H>>,
    ids: Seq<EntityId>,
    views: Seq<ContentView<H>>,
)
    ensures
        with_content(content, missing(content.dom(), ids), views).dom() == content.dom().union(
            ids.to_set(),
        ),
    decreases ids.len(),
{
    let found = missing(content.dom(), ids);
    if ids.len() > 0 {
        let before = ids.drop_last();
        with_content_has(content, before, views);
        assert(ids.to_set() =~= before.to_set().insert(ids.last())) by {
            assert forall|id: EntityId| ids.to_set().contains(id) implies before.to_set().insert(
                ids.last(),
            ).contains(id) by {
                let j = choose|j: int| 0 <= j < ids.len() && ids[j] == id;
                if j < before.len() {
                    assert(before[j] == id);
                }
            }
            assert forall|id: EntityId| before.to_set().insert(
                ids.last(),
            ).contains(id) implies ids.to_set().contains(id) by {
                if before.to_set().contains(id) {
                    let j = choose|j: int| 0 <= j < before.len() && before[j] == id;
                    assert(ids[j] == id);
                }
            }
        }
        if !(content.dom().contains(ids.last()) || before.contains(ids.last())) {
            assert(found.drop_last() =~= missing(content.dom(), before));
        }
        assert(with_content(content, found, views).dom() =~= content.dom().union(ids.to_set()));
    } else {
        assert(content.dom() =~= content.dom().union(ids.to_set()));
    }
}

impl<H: Handles> ToolCallEntry<H> {
    /// Takes in the views that have been created for the terminals and the diffs of a tool call
    /// that had none.
    pub fn sync(
        &mut self,
        entry_index: usize,
        call: &ToolCall,
        terminals: Vec<H::TerminalView>,
        diff_editors: Vec<H::DiffEditor>,
    ) -> (effects: Vec<SyncEffect<H>>)
        requires
            terminals@.len() == missing(
                old(self).content@.dom(),
                terminal_ids(call.terminals@),
            ).len(),
            diff_editors@.len() == missing(
                keys_with_terminals(old(self).content@.dom(), *call),
                call.diffs@,
            ).len(),
        ensures
            final(self).focus_handle == old(self).focus_handle,
            final(self).content@ == content_after(
                old(self).content@,
                *call,
                terminals@,
                diff_editors@,
            ),
            effect_views(effects@) == call_effects(
                entry_index as int,
                old(self).content@,
                *call,
            ),
    {
        let mut effects: Vec<SyncEffect<H>> = Vec::new();
        self.sync_terminals(entry_index, call, terminals, &mut effects);
        proof {
            with_content_has(
                old(self).content@,
                terminal_ids(call.terminals@),
                terminal_contents::<H>(terminals@),
            );
        }
        self.sync_diffs(entry_index, call, diff_editors, &mut effects);
        effects
    }

    fn sync_terminals(
        &mut self,
        entry_index: usize,
        call: &ToolCall,
        terminals: Vec<H::TerminalView>,
        effects: &mut Vec<SyncEffect<H>>,
    )
        requires
            terminals@.len() == missing(
                old(self).content@.dom(),
                terminal_ids(call.terminals@),
            ).len(),
        ensures
            final(self).focus_handle == old(self).focus_handle,
            final(self).content@ == with_content(
                old(self).content@,
                missing(old(self).content@.dom(), terminal_ids(call.terminals@)),
                terminal_contents::<H>(terminals@),
            ),
            effect_views(final(effects)@) == effect_views(old(effects)@) + terminal_effects::<H>(
                entry_index as int,
                *call,
                old(self).content@.dom(),
                call.terminals@,
            ),
    {
        broadcast use vstd::std_specs::hash::group_hash_axioms;

        let ghost content = self.content@;
        let ghost keys = self.content@.dom();
        let ghost focus = self.focus_handle;
        let ghost ids = terminal_ids(call.terminals@);
        let ghost given = terminal_contents::<H>(terminals@);
        let ghost raised = effect_views(effects@);
        let is_completed = call.status == ToolCallStatus::Completed;
        let mut left = terminals;
        let mut i: usize = 0;
        proof {
            assert(ids.take(0) =~= Seq::empty());
            assert(call.terminals@.take(0) =~= Seq::empty());
            assert(given.skip(0) =~= given);
            assert(raised + Seq::<EffectView<H>>::empty() =~= raised);
        }
        while i < call.terminals.len()
            invariant
                i <= call.terminals@.len(),
                is_completed == (call.status == ToolCallStatus::Completed),
                ids == terminal_ids(call.terminals@),
                keys == content.dom(),
                given.len() == missing(keys, ids).len(),
                self.focus_handle == focus,
                terminal_contents::<H>(left@) == given.skip(
                    missing(keys, ids.take(i as int)).len() as int,
                ),
                self.content@ == with_content(content, missing(keys, ids.take(i as int)), given),
                effect_views(effects@) == raised + terminal_effects::<H>(
                    entry_index as int,
                    *call,
                    keys,
                    call.terminals@.take(i as int),
                ),
            decreases call.terminals@.len() - i,
        {
            let terminal: Terminal = call.terminals[i];
            let ghost done = missing(keys, ids.take(i as int));
            let ghost emitted = effects@;
            proof {
                let next = ids.take(i + 1);
                assert(next.drop_last() =~= ids.take(i as int));
                assert(next.last() == terminal.id);
                let following = call.terminals@.take(i + 1);
                assert(following.drop_last() =~= call.terminals@.take(i as int));
                assert(following.last() == terminal);
                assert(terminal_ids(call.terminals@.take(i as int)) =~= ids.take(i as int));
                with_content_has(content, ids.take(i as int), given);
                missing_grows(keys, ids, i + 1);
            }
            if !self.content.contains_key(&terminal.id) {
                assert(missing(keys, ids.take(i + 1)) == done.push(terminal.id));
                assert(terminal_contents::<H>(left@).len() > 0);
                assert(given.skip(done.len() as int)[0] == given[done.len() as int]);
                let ghost rest = left@;
                let view = left.remove(0);
                assert(terminal_contents::<H>(rest)[0] == ContentView::<H>::Terminal(view));
                assert forall|j: int| 0 <= j < left@.len() implies #[trigger] terminal_contents::<H>(
                    left@,
                )[j] == given.skip(done.len() as int + 1)[j] by {
                    assert(left@[j] == rest[j + 1]);
                    assert(terminal_contents::<H>(rest)[j + 1] == given.skip(done.len() as int)[j + 1]);
                }
                assert(terminal_contents::<H>(left@) =~= given.skip(done.len() as int + 1));
                effects.push(
                    SyncEffect::Emit(
                        EntryViewEvent {
                            entry_index,
                            view_event: ViewEvent::NewTerminal(call.id.clone()),
                        },
                    ),
                );
                self.content.insert(terminal.id, ContentView::Terminal(view));
                assert(done.push(terminal.id).drop_last() =~= done);
                assert(effect_views(effects@) =~= effect_views(emitted).push(
                    EffectView::Emit(EventView::NewTerminal(entry_index as int, call.id@)),
                ));
            } else if is_completed && !terminal.has_output {
                effects.push(
                    SyncEffect::Emit(
                        EntryViewEvent {
                            entry_index,
                            view_event: ViewEvent::TerminalMovedToBackground(call.id.clone()),
                        },
                    ),
                );
                assert(effect_views(effects@) =~= effect_views(emitted).push(
                    EffectView::Emit(
                        EventView::TerminalMovedToBackground(entry_index as int, call.id@),
                    ),
                ));
            }
            i += 1;
            assert(effect_views(effects@) =~= raised + terminal_effects::<H>(
                entry_index as int,
                *call,
                keys,
                call.terminals@.take(i as int),
            ));
        }
        assert(ids.take(i as int) =~= ids);
        assert(call.terminals@.take(i as int) =~= call.terminals@);
    }

    fn sync_diffs(
        &mut self,
        entry_index: usize,
        call: &ToolCall,
        diff_editors: Vec<H::DiffEditor>,
        effects: &mut Vec<SyncEffect<H>>,
    )
        requires
            diff_editors@.len() == missing(old(self).content@.dom(), call.diffs@).len(),
        ensures
            final(self).focus_handle == old(self).focus_handle,
            final(self).content@ == with_content(
                old(self).content@,
                missing(old(self).content@.dom(), call.diffs@),
                diff_contents::<H>(diff_editors@),
            ),
            effect_views(final(effects)@) == effect_views(old(effects)@) + diff_effects::<H>(
                entry_index as int,
                *call,
                missing(old(self).content@.dom(), call.diffs@).len(),
            ),
    {
        broadcast use vstd::std_specs::hash::group_hash_axioms;

        let ghost content = self.content@;
        let ghost keys = self.content@.dom();
        let ghost focus = self.focus_handle;
        let ghost ids = call.diffs@;
        let ghost given = diff_contents::<H>(diff_editors@);
        let ghost raised = effect_views(effects@);
        let mut left = diff_editors;
        let mut i: usize = 0;
        proof {
            assert(ids.take(0) =~= Seq::empty());
            assert(given.skip(0) =~= given);
            assert(raised + diff_effects::<H>(entry_index as int, *call, 0) =~= raised);
        }
        while i < call.diffs.len()
            invariant
                i <= call.diffs@.len(),
                ids == call.diffs@,
                keys == content.dom(),
                given.len() == missing(keys, ids).len(),
                self.focus_handle == focus,
                diff_contents::<H>(left@) == given.skip(
                    missing(keys, ids.take(i as int)).len() as int,
                ),
                self.content@ == with_content(content, missing(keys, ids.take(i as int)), given),
                effect_views(effects@) == raised + diff_effects::<H>(
                    entry_index as int,
                    *call,
                    missing(keys, ids.take(i as int)).len(),
                ),
            decreases call.diffs@.len() - i,
        {
            let diff: EntityId = call.diffs[i];
            let ghost done = missing(keys, ids.take(i as int));
            let ghost emitted = effects@;
            proof {
                let next = ids.take(i + 1);
                assert(next.drop_last() =~= ids.take(i as int));
                assert(next.last() == diff);
                with_content_has(content, ids.take(i as int), given);
                missing_grows(keys, ids, i + 1);
            }
            if !self.content.contains_key(&diff) {
                assert(missing(keys, ids.take(i + 1)) == done.push(diff));
                assert(diff_contents::<H>(left@).len() > 0);
                assert(given.skip(done.len() as int)[0] == given[done.len() as int]);
                let ghost rest = left@;
                let editor = left.remove(0);
                assert(diff_contents::<H>(rest)[0] == ContentView::<H>::DiffEditor(editor));
                assert forall|j: int| 0 <= j < left@.len() implies #[trigger] diff_contents::<H>(
                    left@,
                )[j] == given.skip(done.len() as int + 1)[j] by {
                    assert(left@[j] == rest[j + 1]);
                    assert(diff_contents::<H>(rest)[j + 1] == given.skip(done.len() as int)[j + 1]);
                }
                assert(diff_contents::<H>(left@) =~= given.skip(done.len() as int + 1));
                effects.push(
                    SyncEffect::Emit(
                        EntryViewEvent {
                            entry_index,
                            view_event: ViewEvent::NewDiff(call.id.clone()),
                        },
                    ),
                );
                self.content.insert(diff, ContentView::DiffEditor(editor));
                assert(done.push(diff).drop_last() =~= done);
                assert(effect_views(effects@) =~= effect_views(emitted).push(
                    EffectView::Emit(EventView::NewDiff(entry_index as int, call.id@)),
                ));
            }
            i += 1;
            assert(effect_views(effects@) =~= raised + diff_effects::<H>(
                entry_index as int,
                *call,
                missing(keys, ids.take(i as int)).len(),
            ));
        }
        assert(ids.take(i as int) =~= ids);
    }
}

/// The identifiers that content has a view for, each of them once.
fn ids_with_view<H: Handles>(content: &HashMap<EntityId, ContentView<H>>) -> (ids: Vec<EntityId>)
    ensures
        ids@.no_duplicates(),
        ids@.to_set() == content@.dom(),
{
    broadcast use vstd::std_specs::hash::group_hash_axioms;

    let mut ids: Vec<EntityId> = Vec::new();
    for id in it: content.keys()
        invariant
            it.seq().no_duplicates(),
            it.seq().unref().to_set() == content@.dom(),
            ids@ == it.seq().unref().take(it.index()),
            it.index() == it.seq().len() ==> ids@ =~= it.seq().unref(),
    {
        ids.push(*id);
        assert(ids@ =~= it.seq().unref().take(it.index() + 1));
    }
    ids
}

/// The diffs that content has an editor for, each of them once.
pub fn diffs_of<H: Handles>(content: &HashMap<EntityId, ContentView<H>>) -> (diffs: Vec<EntityId>)
    ensures
        diffs@.no_duplicates(),
        forall|id: EntityId| #[trigger]
            diffs@.contains(id) <==> content@.contains_key(id) && content@[id] is DiffEditor,
{
    broadcast use vstd::std_specs::hash::group_hash_axioms;

    let ids = ids_with_view(content);
    let mut diffs: Vec<EntityId> = Vec::new();
    let mut i: usize = 0;
    while i < ids.len()
        invariant
            i <= ids@.len(),
            ids@.no_duplicates(),
            ids@.to_set() == content@.dom(),
            diffs@.no_duplicates(),
            forall|id: EntityId| #[trigger]
                diffs@.contains(id) <==> ids@.take(i as int).contains(id)
                    && content@[id] is DiffEditor,
        decreases ids@.len() - i,
    {
        let id: EntityId = ids[i];
        let ghost found = diffs@;
        proof {
            assert(ids@.to_set().contains(id));
            assert(!ids@.take(i as int).contains(id));
            assert(!found.contains(id));
            assert(ids@.take(i + 1) =~= ids@.take(i as int).push(id));
        }
        let has_editor = match content.get(&id) {
            Some(ContentView::DiffEditor(_)) => true,
            _ => false,
        };
        if has_editor {
            diffs.push(id);
            assert forall|j: int, k: int| 0 <= j < k < diffs@.len() implies diffs@[j]
                != diffs@[k] by {
                assert(found.contains(found[j]));
            }
        }
        proof {
            assert forall|other: EntityId| #[trigger]
                diffs@.contains(other) <==> ids@.take(i + 1).contains(other)
                    && content@[other] is DiffEditor by {
                push_contains(ids@.take(i as int), id, other);
                push_contains(found, id, other);
            }
        }
        i += 1;
    }
    proof {
        assert(ids@.take(i as int) =~= ids@);
        assert forall|id: EntityId| ids@.contains(id) <==> content@.contains_key(id) by {
            assert(ids@.to_set().contains(id) == content@.dom().contains(id));
        }
    }
    diffs
}

/// A sequence with one more element contains that one, and what it contained before.
pub proof fn push_contains<A>(seq: Seq<A>, added: A, other: A)
    ensures
        seq.push(added).contains(other) <==> seq.contains(other) || other == added,
{
    if seq.contains(other) {
        let j = choose|j: int| 0 <= j < seq.len() && seq[j] == other;
        assert(seq.push(added)[j] == other);
    }
    assert(seq.push(added)[seq.len() as int] == added);
}

} // verus!
