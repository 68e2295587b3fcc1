//! Bundles: runs of consecutive tool calls and thoughts that are shown under one header.

use vstd::prelude::*;

use crate::text::{bundle_label, decimal, decimal_text, label};
use crate::thread::{AgentThreadEntry, AssistantMessageChunk, ToolCallId, ToolCallStatus, ToolKind};
use crate::tool_kind::{
    kinds_and_sort_keys_correspond, kinds_in_order, tool_kind_from_sort_key, tool_kind_sort_key,
    TOOL_KIND_COUNT,
};

verus! {

/// Hint about what changed since the last bundle computation,
/// allowing a scoped recomputation of only the affected suffix.
#[derive(Debug)]
pub enum BundleRecomputeHint {
    /// A new entry was appended at the given index (always len-1).
    NewEntry(usize),
    /// An existing entry was updated at the given index.
    EntryUpdated(usize),
    /// A range of entries was removed.
    EntriesRemoved { range: std::ops::Range<usize> },
}

impl Clone for BundleRecomputeHint {
    fn clone(&self) -> (copy: Self)
        ensures
            copy == *self,
    {
        match self {
            BundleRecomputeHint::NewEntry(index) => BundleRecomputeHint::NewEntry(*index),
            BundleRecomputeHint::EntryUpdated(index) => BundleRecomputeHint::EntryUpdated(*index),
            BundleRecomputeHint::EntriesRemoved { range } => BundleRecomputeHint::EntriesRemoved {
                range: range.start..range.end,
            },
        }
    }
}

/// Stable identifier for a bundle, surviving entry removals and reordering
/// when possible. Tool-call bundles are keyed by the first tool call's ID;
/// pure-thought bundles (which have no tool call ID) fall back to positional.
#[derive(Debug, PartialEq, Eq, Hash)]
pub enum BundleId {
    ToolCall(ToolCallId),
    Thoughts(usize),
}

/// What a [`BundleId`] identifies a bundle by.
pub enum BundleIdView {
    ToolCall(Seq<char>),
    Thoughts(int),
}

impl View for BundleId {
    type V = BundleIdView;

    open spec fn view(&self) -> BundleIdView {
        match self {
            BundleId::ToolCall(id) => BundleIdView::ToolCall(id@),
            BundleId::Thoughts(start) => BundleIdView::Thoughts(*start as int),
        }
    }
}

impl Clone for BundleId {
    fn clone(&self) -> (copy: Self)
        ensures
            copy@ == self@,
    {
        match self {
            BundleId::ToolCall(id) => BundleId::ToolCall(id.clone()),
            BundleId::Thoughts(start) => BundleId::Thoughts(*start),
        }
    }
}

impl BundleId {
    /// Whether two identifiers stand for the same bundle.
    pub fn same_as(&self, other: &Self) -> (same: bool)
        ensures
            same == (self@ == other@),
    {
        match (self, other) {
            (BundleId::ToolCall(a), BundleId::ToolCall(b)) => a.same_as(b),
            (BundleId::Thoughts(a), BundleId::Thoughts(b)) => *a == *b,
            _ => false,
        }
    }
}

/// How often each tool kind occurs among some entries.
#[derive(Clone, Copy, Debug)]
pub struct KindCounts {
    counts: [u32; TOOL_KIND_COUNT],
}

impl View for KindCounts {
    type V = Seq<u32>;

    closed spec fn view(&self) -> Seq<u32> {
        self.counts@
    }
}

/// A run of at least two entries that are shown together.
#[derive(Debug)]
pub struct ToolCallBundle {
    pub start_index: usize,
    pub end_index: usize,
    /// Total tool call count.
    pub tool_call_count: usize,
    pub thought_count: usize,
    /// Per-kind tool call counts, indexed by `tool_kind_sort_key`.
    pub kind_counts: KindCounts,
    /// Thought chunks from the mixed message immediately after the bundle,
    /// pre-computed so rendering doesn't need to reach into the entries slice.
    pub trailing_thought_count: usize,
    pub id: BundleId,
    pub label: String,
    pub group_id: String,
}

/// What a [`ToolCallBundle`] says.
#[verifier::ext_equal]
pub struct BundleView {
    pub start: int,
    pub end: int,
    pub tool_calls: nat,
    pub thoughts: nat,
    /// How often each kind occurs, in the order of kinds.
    pub kinds: Seq<nat>,
    pub trailing_thoughts: nat,
    pub id: BundleIdView,
    pub label: Seq<char>,
    pub group_id: Seq<char>,
}

impl View for ToolCallBundle {
    type V = BundleView;

    open spec fn view(&self) -> BundleView {
        BundleView {
            start: self.start_index as int,
            end: self.end_index as int,
            tool_calls: self.tool_call_count as nat,
            thoughts: self.thought_count as nat,
            kinds: Seq::new(TOOL_KIND_COUNT as nat, |key: int| self.kind_counts@[key] as nat),
            trailing_thoughts: self.trailing_thought_count as nat,
            id: self.id@,
            label: self.label@,
            group_id: self.group_id@,
        }
    }
}

impl Clone for ToolCallBundle {
    fn clone(&self) -> (copy: Self)
        ensures
            copy@ == self@,
    {
        ToolCallBundle {
            start_index: self.start_index,
            end_index: self.end_index,
            tool_call_count: self.tool_call_count,
            thought_count: self.thought_count,
            kind_counts: self.kind_counts,
            trailing_thought_count: self.trailing_thought_count,
            id: self.id.clone(),
            label: self.label.clone(),
            group_id: self.group_id.clone(),
        }
    }
}

impl ToolCallBundle {
    /// The tool kinds that have a non-zero count, with their counts, in sort order.
    pub fn kind_counts_iter(&self) -> (counts: Vec<(ToolKind, u32)>)
        ensures
            counts@ == nonzero_counts(self.kind_counts@, TOOL_KIND_COUNT as int),
    {
        let mut counts: Vec<(ToolKind, u32)> = Vec::new();
        let mut key: usize = 0;
        while key < TOOL_KIND_COUNT
            invariant
                key <= TOOL_KIND_COUNT,
                counts@ == nonzero_counts(self.kind_counts@, key as int),
            decreases TOOL_KIND_COUNT - key,
        {
            let count: u32 = self.kind_counts.counts[key];
            if count > 0 {
                counts.push((tool_kind_from_sort_key(key), count));
            }
            key += 1;
        }
        counts
    }
}

/// The kinds among the first `n` in order whose count is not zero, each with its count.
pub open spec fn nonzero_counts(counts: Seq<u32>, n: int) -> Seq<(ToolKind, u32)>
    decreases n,
{
    if n <= 0 {
        Seq::empty()
    } else if counts[n - 1] > 0 {
        nonzero_counts(counts, n - 1).push((kinds_in_order()[n - 1], counts[n - 1]))
    } else {
        nonzero_counts(counts, n - 1)
    }
}

/// Whether some chunk is a thought.
pub open spec fn has_thought(chunks: Seq<AssistantMessageChunk>) -> bool {
    exists|i: int| 0 <= i < chunks.len() && chunks[i] is Thought
}

/// Whether some chunk is not a thought.
pub open spec fn has_text(chunks: Seq<AssistantMessageChunk>) -> bool {
    exists|i: int| 0 <= i < chunks.len() && !(chunks[i] is Thought)
}

/// How many chunks are thoughts.
pub open spec fn thoughts_among(chunks: Seq<AssistantMessageChunk>) -> nat {
    chunks.filter(|chunk: AssistantMessageChunk| chunk is Thought).len()
}

/// Whether an entry may be part of a bundle: a tool call that runs no subagent and neither waits
/// for confirmation nor was canceled, or a message with a thought.
pub open spec fn eligible(entry: AgentThreadEntry) -> bool {
    match entry {
        AgentThreadEntry::ToolCall(call) => {
            &&& !call.subagent
            &&& call.status != ToolCallStatus::WaitingForConfirmation
            &&& call.status != ToolCallStatus::Canceled
        },
        AgentThreadEntry::AssistantMessage(message) => has_thought(message.chunks@),
        _ => false,
    }
}

/// Whether an entry is the last one of the run that it is part of: a message with some text.
pub open spec fn terminating(entry: AgentThreadEntry) -> bool {
    entry matches AgentThreadEntry::AssistantMessage(message) && has_text(message.chunks@)
}

/// The number of thoughts of an entry.
pub open spec fn thoughts_in(entry: AgentThreadEntry) -> nat {
    match entry {
        AgentThreadEntry::AssistantMessage(message) => thoughts_among(message.chunks@),
        _ => 0,
    }
}

/// The identifier of a tool call.
pub open spec fn call_id(entry: AgentThreadEntry) -> Option<Seq<char>> {
    match entry {
        AgentThreadEntry::ToolCall(call) => Some(call.id@),
        _ => None,
    }
}

/// The sum of `weight` over the entries `start..end`.
pub open spec fn total(
    entries: Seq<AgentThreadEntry>,
    start: int,
    end: int,
    weight: spec_fn(AgentThreadEntry) -> nat,
) -> nat
    decreases end - start,
{
    if end <= start {
        0
    } else {
        total(entries, start, end - 1, weight) + weight(entries[end - 1])
    }
}

/// Counts tool calls.
pub open spec fn call_weight() -> spec_fn(AgentThreadEntry) -> nat {
    |entry: AgentThreadEntry| if entry is ToolCall { 1nat } else { 0nat }
}

/// Counts tool calls of one kind.
pub open spec fn kind_weight(kind: ToolKind) -> spec_fn(AgentThreadEntry) -> nat {
    |entry: AgentThreadEntry|
        if entry matches AgentThreadEntry::ToolCall(call) && call.kind == kind {
            1nat
        } else {
            0nat
        }
}

/// Counts thoughts.
pub open spec fn thought_weight() -> spec_fn(AgentThreadEntry) -> nat {
    |entry: AgentThreadEntry| thoughts_in(entry)
}

/// The identifier of the first tool call among the entries `start..end`.
pub open spec fn first_call(entries: Seq<AgentThreadEntry>, start: int, end: int) -> Option<Seq<char>>
    decreases end - start,
{
    if end <= start {
        None
    } else if first_call(entries, start, end - 1) is Some {
        first_call(entries, start, end - 1)
    } else {
        call_id(entries[end - 1])
    }
}

/// The number of thoughts of the entry at `at`, if that entry is a message with text.
pub open spec fn thoughts_at(entries: Seq<AgentThreadEntry>, at: int) -> nat {
    if 0 <= at < entries.len() && terminating(entries[at]) {
        thoughts_in(entries[at])
    } else {
        0
    }
}

/// Where the run that begins at `start` ends: behind the first terminating entry, or else before
/// the first entry that is not eligible.
pub open spec fn run_end(entries: Seq<AgentThreadEntry>, start: int) -> int
    decreases entries.len() - start,
{
    if start >= entries.len() || !eligible(entries[start]) {
        start
    } else if terminating(entries[start]) {
        start + 1
    } else {
        run_end(entries, start + 1)
    }
}

/// A run ends no earlier than it begins, and within the entries.
pub proof fn run_end_bounds(entries: Seq<AgentThreadEntry>, start: int)
    requires
        start <= entries.len(),
    ensures
        start <= run_end(entries, start) <= entries.len(),
    decreases entries.len() - start,
{
    if start < entries.len() && eligible(entries[start]) && !terminating(entries[start]) {
        run_end_bounds(entries, start + 1);
    }
}

/// The bundle of the entries `start..end`, where the entries are those of a thread from `offset` on.
pub open spec fn describe(
    entries: Seq<AgentThreadEntry>,
    start: int,
    end: int,
    offset: int,
) -> BundleView {
    let calls = total(entries, start, end, call_weight());
    let thoughts = total(entries, start, end, thought_weight());
    let trailing = thoughts_at(entries, end);
    BundleView {
        start: start + offset,
        end: end + offset,
        tool_calls: calls,
        thoughts,
        kinds: Seq::new(
            TOOL_KIND_COUNT as nat,
            |key: int| total(entries, start, end, kind_weight(kinds_in_order()[key])),
        ),
        trailing_thoughts: trailing,
        id: match first_call(entries, start, end) {
            Some(id) => BundleIdView::ToolCall(id),
            None => BundleIdView::Thoughts(start + offset),
        },
        label: label(thoughts + trailing, calls),
        group_id: "bundle-header-"@ + decimal((start + offset) as nat),
    }
}

/// The bundles of the entries from `start` on: the runs of more than one entry, in order.
pub open spec fn bundles_from(entries: Seq<AgentThreadEntry>, start: int, offset: int) -> Seq<
    BundleView,
>
    decreases entries.len() - start,
{
    if start >= entries.len() {
        Seq::empty()
    } else if run_end(entries, start) <= start + 1 {
        bundles_from(entries, start + 1, offset)
    } else {
        proof {
            run_end_bounds(entries, start);
        }
        seq![describe(entries, start, run_end(entries, start), offset)] + bundles_from(
            entries,
            run_end(entries, start),
            offset,
        )
    }
}

/// Whether the counts of every bundle fit the integers that hold them. A run that begins in the
/// middle of another one counts no more than that one does.
pub open spec fn tallies_fit(entries: Seq<AgentThreadEntry>) -> bool {
    forall|start: int|
        0 <= start < entries.len() ==> run_fits(
            entries,
            start,
            #[trigger] run_end(entries, start),
        )
}

/// Whether the counts of the run `start..end` fit the integers that hold them.
pub open spec fn run_fits(entries: Seq<AgentThreadEntry>, start: int, end: int) -> bool {
    &&& forall|kind: ToolKind| #[trigger]
        total(entries, start, end, kind_weight(kind)) <= u32::MAX
    &&& total(entries, start, end, thought_weight()) <= usize::MAX
    &&& end - start > 1 ==> total(entries, start, end, thought_weight()) + thoughts_at(entries, end)
        <= usize::MAX
}

/// What each of some bundles says.
pub open spec fn views(bundles: Seq<ToolCallBundle>) -> Seq<BundleView> {
    bundles.map_values(|bundle: ToolCallBundle| bundle@)
}

fn count_thoughts(chunks: &Vec<AssistantMessageChunk>) -> (count: usize)
    ensures
        count == thoughts_among(chunks@),
{
    let mut count: usize = 0;
    let mut i: usize = 0;
    while i < chunks.len()
        invariant
            i <= chunks.len(),
            count <= i,
            count == thoughts_among(chunks@.take(i as int)),
        decreases chunks.len() - i,
    {
        proof {
            reveal(Seq::filter);
            assert(chunks@.take(i + 1).drop_last() == chunks@.take(i as int));
        }
        if chunks[i] == AssistantMessageChunk::Thought {
            count += 1;
        }
        i += 1;
    }
    assert(chunks@.take(i as int) == chunks@);
    count
}

/// The number of thoughts of an entry.
pub fn entry_thought_count(entry: &AgentThreadEntry) -> (count: usize)
    ensures
        count == thoughts_in(*entry),
{
    match entry {
        AgentThreadEntry::AssistantMessage(message) => count_thoughts(&message.chunks),
        _ => 0,
    }
}

fn any_thought(chunks: &Vec<AssistantMessageChunk>) -> (any: bool)
    ensures
        any == has_thought(chunks@),
{
    let mut i: usize = 0;
    while i < chunks.len()
        invariant
            i <= chunks.len(),
            forall|j: int| 0 <= j < i ==> !(chunks@[j] is Thought),
        decreases chunks.len() - i,
    {
        if chunks[i] == AssistantMessageChunk::Thought {
            return true;
        }
        i += 1;
    }
    false
}

fn any_text(chunks: &Vec<AssistantMessageChunk>) -> (any: bool)
    ensures
        any == has_text(chunks@),
{
    let mut i: usize = 0;
    while i < chunks.len()
        invariant
            i <= chunks.len(),
            forall|j: int| 0 <= j < i ==> chunks@[j] is Thought,
        decreases chunks.len() - i,
    {
        if chunks[i] != AssistantMessageChunk::Thought {
            return true;
        }
        i += 1;
    }
    false
}

/// Whether an entry may be part of a bundle.
pub fn is_entry_bundle_eligible(entry: &AgentThreadEntry) -> (is_eligible: bool)
    ensures
        is_eligible == eligible(*entry),
{
    match entry {
        AgentThreadEntry::ToolCall(call) => {
            !call.is_subagent() && call.status != ToolCallStatus::WaitingForConfirmation
                && call.status != ToolCallStatus::Canceled
        },
        AgentThreadEntry::AssistantMessage(message) => any_thought(&message.chunks),
        _ => false,
    }
}

/// A terminating entry is counted into the current bundle but ends the run
/// afterwards. Mixed messages (thoughts + text) are terminating so output
/// text doesn't get swallowed into a mega-bundle.
pub fn is_entry_bundle_terminating(entry: &AgentThreadEntry) -> (is_terminating: bool)
    ensures
        is_terminating == terminating(*entry),
{
    match entry {
        AgentThreadEntry::AssistantMessage(message) => any_text(&message.chunks),
        _ => false,
    }
}

/// Adds an entry to the counts of a run.
fn count_entry(
    entry: &AgentThreadEntry,
    tool_call_count: &mut usize,
    thought_count: &mut usize,
    kind_counts: &mut [u32; TOOL_KIND_COUNT],
    first_tool_call_id: &mut Option<ToolCallId>,
)
    requires
        *old(tool_call_count) < usize::MAX,
        *old(thought_count) + thoughts_in(*entry) <= usize::MAX,
        forall|key: int|
            0 <= key < TOOL_KIND_COUNT ==> #[trigger] old(kind_counts)[key] + kind_weight(
                kinds_in_order()[key],
            )(*entry) <= u32::MAX,
    ensures
        *final(tool_call_count) == *old(tool_call_count) + call_weight()(*entry),
        *final(thought_count) == *old(thought_count) + thoughts_in(*entry),
        forall|key: int|
            0 <= key < TOOL_KIND_COUNT ==> #[trigger] final(kind_counts)[key] == old(
                kind_counts,
            )[key] + kind_weight(kinds_in_order()[key])(*entry),
        match *old(first_tool_call_id) {
            Some(id) => *final(first_tool_call_id) == Some(id),
            None => match call_id(*entry) {
                Some(id) => *final(first_tool_call_id) matches Some(first) && first@ == id,
                None => *final(first_tool_call_id) is None,
            },
        },
{
    match entry {
        AgentThreadEntry::ToolCall(call) => {
            *tool_call_count += 1;
            let key: usize = tool_kind_sort_key(&call.kind) as usize;
            proof {
                kinds_and_sort_keys_correspond(call.kind);
                assert(kind_weight(kinds_in_order()[key as int])(*entry) == 1);
            }
            let count: u32 = kind_counts[key];
            kind_counts[key] = count + 1;
            if first_tool_call_id.is_none() {
                *first_tool_call_id = Some(call.id.clone());
            }
        },
        AgentThreadEntry::AssistantMessage(_) => {
            *thought_count += entry_thought_count(entry);
        },
        _ => {},
    }
}

/// The number of thoughts of the entry at `at`, if that entry is a message with text. A message of
/// thoughts alone trails no bundle: it begins a run of its own.
pub fn trailing_thought_count(entries: &[AgentThreadEntry], at: usize) -> (count: usize)
    ensures
        count == thoughts_at(entries@, at as int),
{
    if at < entries.len() && is_entry_bundle_terminating(&entries[at]) {
        entry_thought_count(&entries[at])
    } else {
        0
    }
}

/// Compute bundles for a slice of entries, adding `offset` to all indices.
pub fn compute_tool_call_bundles(entries: &[AgentThreadEntry], offset: usize) -> (bundles: Vec<
    ToolCallBundle,
>)
    requires
        offset + entries@.len() <= usize::MAX,
        tallies_fit(entries@),
    ensures
        views(bundles@) == bundles_from(entries@, 0, offset as int),
{
    let mut bundles: Vec<ToolCallBundle> = Vec::new();
    let mut i: usize = 0;
    while i < entries.len()
        invariant
            i <= entries@.len(),
            offset + entries@.len() <= usize::MAX,
            tallies_fit(entries@),
            views(bundles@) + bundles_from(entries@, i as int, offset as int) == bundles_from(
                entries@,
                0,
                offset as int,
            ),
        ensures
            i == entries@.len(),
        decreases entries@.len() - i,
    {
        let ghost resumed = i;
        while i < entries.len() && !is_entry_bundle_eligible(&entries[i])
            invariant
                resumed <= i <= entries@.len(),
                views(bundles@) + bundles_from(entries@, i as int, offset as int) == bundles_from(
                    entries@,
                    0,
                    offset as int,
                ),
            decreases entries@.len() - i,
        {
            i += 1;
        }
        if i >= entries.len() {
            break;
        }
        let run_start: usize = i;
        let mut tool_call_count: usize = 0;
        let mut thought_count: usize = 0;
        let mut kind_counts: [u32; TOOL_KIND_COUNT] = [0u32; TOOL_KIND_COUNT];
        let mut first_tool_call_id: Option<ToolCallId> = None;
        let ghost run_stop = run_end(entries@, run_start as int);
        proof {
            run_end_bounds(entries@, run_start as int);
            run_end_bounds(entries@, run_start + 1);
            assert(run_stop > run_start);
        }

        while i < entries.len() && is_entry_bundle_eligible(&entries[i])
            invariant_except_break
                run_end(entries@, i as int) == run_stop,
            invariant
                run_start <= i <= run_stop <= entries@.len(),
                run_fits(entries@, run_start as int, run_stop),
                tool_call_count <= i - run_start,
                tool_call_count == total(entries@, run_start as int, i as int, call_weight()),
                thought_count == total(entries@, run_start as int, i as int, thought_weight()),
                forall|key: int|
                    0 <= key < TOOL_KIND_COUNT ==> #[trigger] kind_counts[key] == total(
                        entries@,
                        run_start as int,
                        i as int,
                        kind_weight(kinds_in_order()[key]),
                    ),
                match first_call(entries@, run_start as int, i as int) {
                    Some(id) => first_tool_call_id matches Some(first) && first@ == id,
                    None => first_tool_call_id is None,
                },
            ensures
                i == run_stop,
            decreases entries@.len() - i,
        {
            proof {
                run_end_bounds(entries@, i + 1);
                total_grows(entries@, run_start as int, i + 1, run_stop, thought_weight());
                assert forall|key: int| 0 <= key < TOOL_KIND_COUNT implies #[trigger] kind_counts[key]
                    + kind_weight(kinds_in_order()[key])(entries@[i as int]) <= u32::MAX by {
                    total_grows(
                        entries@,
                        run_start as int,
                        i + 1,
                        run_stop,
                        kind_weight(kinds_in_order()[key]),
                    );
                }
            }
            count_entry(
                &entries[i],
                &mut tool_call_count,
                &mut thought_count,
                &mut kind_counts,
                &mut first_tool_call_id,
            );
            i += 1;
            if is_entry_bundle_terminating(&entries[i - 1]) {
                break;
            }
        }

        let run_len: usize = i - run_start;
        if run_len > 1 {
            let start_index: usize = run_start + offset;
            let end_index: usize = i + offset;
            let id = match first_tool_call_id {
                Some(call_id) => BundleId::ToolCall(call_id),
                None => BundleId::Thoughts(start_index),
            };
            let trailing: usize = trailing_thought_count(entries, i);
            let total_thoughts: usize = thought_count + trailing;
            let bundle = ToolCallBundle {
                start_index,
                end_index,
                tool_call_count,
                thought_count,
                kind_counts: KindCounts { counts: kind_counts },
                trailing_thought_count: trailing,
                label: bundle_label(total_thoughts, tool_call_count),
                id,
                group_id: "bundle-header-".to_owned().concat(decimal_text(start_index).as_str()),
            };
            assert(bundle@ == describe(entries@, run_start as int, i as int, offset as int));
            bundles.push(bundle);
        }
    }
    bundles
}

/// Counting more entries gives no smaller a sum.
proof fn total_grows(
    entries: Seq<AgentThreadEntry>,
    start: int,
    middle: int,
    end: int,
    weight: spec_fn(AgentThreadEntry) -> nat,
)
    requires
        middle <= end,
    ensures
        total(entries, start, middle, weight) <= total(entries, start, end, weight),
    decreases end - middle,
{
    if middle < end {
        total_grows(entries, start, middle, end - 1, weight);
    }
}

/// Two identifiers are the same exactly if both are that of one tool call, or both that of one place.
pub proof fn bundle_identifiers_are_compared(a: BundleId, b: BundleId, same: bool)
    requires
        call_ensures(BundleId::same_as, (&a, &b), same),
    ensures
        same <==> {
            ||| (a matches BundleId::ToolCall(x) && b matches BundleId::ToolCall(y) && x@ == y@)
            ||| (a matches BundleId::Thoughts(x) && b matches BundleId::Thoughts(y) && x == y)
        },
{
}

} // verus!
