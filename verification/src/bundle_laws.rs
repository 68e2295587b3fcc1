//! What holds of the bundles of any entries.

use vstd::prelude::*;

use crate::bundle::{
    bundles_from, call_id, call_weight, compute_tool_call_bundles, describe, eligible,
    entry_thought_count, first_call, has_text, has_thought, is_entry_bundle_eligible,
    is_entry_bundle_terminating, kind_weight, nonzero_counts, run_end, run_end_bounds, tallies_fit,
    terminating, thought_weight, thoughts_among, total, trailing_thought_count, views,
    BundleIdView, BundleView, ToolCallBundle,
};
use crate::sync::push_contains;
use crate::text::{decimal, decimal_tells_numbers_apart, label};
use crate::thread::{AgentThreadEntry, AssistantMessageChunk, ToolCallStatus, ToolKind};
use crate::tool_kind::{kinds_and_sort_keys_correspond, kinds_in_order, TOOL_KIND_COUNT};

verus! {

/// Whether bundles have at least two entries each and follow one another without overlap.
pub open spec fn ordered(bundles: Seq<BundleView>) -> bool {
    &&& forall|i: int|
        0 <= i < bundles.len() ==> 0 <= (#[trigger] bundles[i]).start < bundles[i].end - 1
    &&& forall|i: int, j: int|
        0 <= i < j < bundles.len() ==> (#[trigger] bundles[i]).end <= (#[trigger] bundles[j]).start
}

/// Whether `start..end` is a run: as many entries as can stand together. All of them are eligible
/// and none but the last one is terminating, the run before it or an ineligible entry ends right
/// at `start`, and the run cannot go on at `end`.
pub open spec fn is_run(entries: Seq<AgentThreadEntry>, start: int, end: int) -> bool {
    &&& 0 <= start < end <= entries.len()
    &&& forall|i: int| start <= i < end ==> groupable(#[trigger] entries[i])
    &&& forall|i: int| start <= i < end - 1 ==> !addresses_user(#[trigger] entries[i])
    &&& start == 0 || !groupable(entries[start - 1]) || addresses_user(entries[start - 1])
    &&& end == entries.len() || !groupable(entries[end]) || addresses_user(entries[end - 1])
}

/// Whether an entry can stand in a run: a tool call of whatever kind, unless it runs a subagent,
/// waits for confirmation or was canceled; or a message in which the assistant thinks.
pub open spec fn groupable(entry: AgentThreadEntry) -> bool {
    ||| entry matches AgentThreadEntry::ToolCall(call) && !(call.subagent || call.status
        == ToolCallStatus::WaitingForConfirmation || call.status == ToolCallStatus::Canceled)
    ||| entry matches AgentThreadEntry::AssistantMessage(message) && message.chunks@.contains(
        AssistantMessageChunk::Thought,
    )
}

/// Whether an entry is a message with text for the user.
pub open spec fn addresses_user(entry: AgentThreadEntry) -> bool {
    entry matches AgentThreadEntry::AssistantMessage(message) && message.chunks@.contains(
        AssistantMessageChunk::Message,
    )
}

/// An entry is eligible for a bundle exactly if it can stand in a run, and terminating exactly if it
/// addresses the user. Of a tool call neither its kind nor its content matters.
pub proof fn eligibility_is_told_by_the_fields(entry: AgentThreadEntry)
    ensures
        eligible(entry) == groupable(entry),
        terminating(entry) == addresses_user(entry),
{
    if let AgentThreadEntry::AssistantMessage(message) = entry {
        let chunks = message.chunks@;
        if has_thought(chunks) {
            let i = choose|i: int| 0 <= i < chunks.len() && chunks[i] is Thought;
            assert(chunks[i] == AssistantMessageChunk::Thought);
        }
        if has_text(chunks) {
            let i = choose|i: int| 0 <= i < chunks.len() && !(chunks[i] is Thought);
            assert(chunks[i] == AssistantMessageChunk::Message);
        }
    }
}

proof fn eligibility_is_told_of_all()
    ensures
        forall|entry: AgentThreadEntry| #[trigger] eligible(entry) == groupable(entry),
        forall|entry: AgentThreadEntry| #[trigger] groupable(entry) == eligible(entry),
        forall|entry: AgentThreadEntry| #[trigger] terminating(entry) == addresses_user(entry),
        forall|entry: AgentThreadEntry| #[trigger] addresses_user(entry) == terminating(entry),
{
    assert forall|entry: AgentThreadEntry| #[trigger] eligible(entry) == groupable(entry) by {
        eligibility_is_told_by_the_fields(entry);
    }
    assert forall|entry: AgentThreadEntry| #[trigger] terminating(entry) == addresses_user(entry) by {
        eligibility_is_told_by_the_fields(entry);
    }
}

/// What is asked of an entry is answered from its fields.
pub proof fn eligibility_is_answered(
    entry: AgentThreadEntry,
    is_eligible: bool,
    is_terminating: bool,
)
    requires
        call_ensures(is_entry_bundle_eligible, (&entry,), is_eligible),
        call_ensures(is_entry_bundle_terminating, (&entry,), is_terminating),
    ensures
        entry matches AgentThreadEntry::ToolCall(call) ==> is_eligible == (!call.subagent
            && call.status != ToolCallStatus::WaitingForConfirmation && call.status
            != ToolCallStatus::Canceled) && !is_terminating,
        entry matches AgentThreadEntry::AssistantMessage(message) ==> is_eligible
            == message.chunks@.contains(AssistantMessageChunk::Thought) && is_terminating
            == message.chunks@.contains(AssistantMessageChunk::Message),
        !(entry is ToolCall || entry is AssistantMessage) ==> !is_eligible && !is_terminating,
{
    eligibility_is_told_by_the_fields(entry);
}

/// Whether no run leads across `at` from the left into an eligible entry.
spec fn fresh(entries: Seq<AgentThreadEntry>, at: int) -> bool {
    ||| at == 0
    ||| !eligible(entries[at - 1])
    ||| terminating(entries[at - 1])
    ||| at >= entries.len()
    ||| !eligible(entries[at])
}

/// All entries from `start` up to the end of the run that begins there are eligible, none but the
/// last one is terminating, and the run does not go on behind its end.
pub proof fn run_end_is_run(entries: Seq<AgentThreadEntry>, start: int)
    requires
        0 <= start <= entries.len(),
    ensures
        start <= run_end(entries, start) <= entries.len(),
        forall|i: int| start <= i < run_end(entries, start) ==> eligible(#[trigger] entries[i]),
        forall|i: int|
            start <= i < run_end(entries, start) - 1 ==> !terminating(#[trigger] entries[i]),
        ({
            let end = run_end(entries, start);
            ||| end == entries.len()
            ||| !eligible(entries[end])
            ||| end > start && terminating(entries[end - 1])
        }),
    decreases entries.len() - start,
{
    if start < entries.len() && eligible(entries[start]) && !terminating(entries[start]) {
        run_end_is_run(entries, start + 1);
    }
}

/// A run ends where the run that begins at its start ends.
pub proof fn run_is_run_end(entries: Seq<AgentThreadEntry>, start: int, end: int)
    requires
        0 <= start < end <= entries.len(),
        forall|i: int| start <= i < end ==> eligible(#[trigger] entries[i]),
        forall|i: int| start <= i < end - 1 ==> !terminating(#[trigger] entries[i]),
        end == entries.len() || !eligible(entries[end]) || terminating(entries[end - 1]),
    ensures
        run_end(entries, start) == end,
    decreases end - start,
{
    assert(eligible(entries[start]));
    if start + 1 < end {
        assert(!terminating(entries[start]));
        run_is_run_end(entries, start + 1, end);
    } else if !terminating(entries[start]) {
        assert(run_end(entries, end) == end);
    }
}

/// Where the run that an eligible entry is part of begins.
pub proof fn run_has_start(entries: Seq<AgentThreadEntry>, at: int) -> (start: int)
    requires
        0 <= at < entries.len(),
        eligible(entries[at]),
    ensures
        0 <= start <= at,
        forall|i: int| start <= i <= at ==> eligible(#[trigger] entries[i]),
        forall|i: int| start <= i < at ==> !terminating(#[trigger] entries[i]),
        start == 0 || !eligible(entries[start - 1]) || terminating(entries[start - 1]),
    decreases at,
{
    if at > 0 && eligible(entries[at - 1]) && !terminating(entries[at - 1]) {
        run_has_start(entries, at - 1)
    } else {
        at
    }
}

/// The bundles of entries have at least two entries each, follow one another without overlap, and
/// lie within the entries.
pub proof fn bundles_are_ordered(entries: Seq<AgentThreadEntry>, start: int, offset: int)
    requires
        0 <= start <= entries.len(),
        0 <= offset,
    ensures
        ordered(bundles_from(entries, start, offset)),
        forall|i: int|
            0 <= i < bundles_from(entries, start, offset).len() ==> start + offset <= (
            #[trigger] bundles_from(entries, start, offset)[i]).start,
        forall|i: int|
            0 <= i < bundles_from(entries, start, offset).len() ==> (#[trigger] bundles_from(
                entries,
                start,
                offset,
            )[i]).end <= entries.len() + offset,
    decreases entries.len() - start,
{
    if start < entries.len() {
        run_end_bounds(entries, start);
        let end = run_end(entries, start);
        if end <= start + 1 {
            bundles_are_ordered(entries, start + 1, offset);
        } else {
            bundles_are_ordered(entries, end, offset);
            let rest = bundles_from(entries, end, offset);
            let all = bundles_from(entries, start, offset);
            assert forall|i: int| 1 <= i < all.len() implies #[trigger] all[i] == rest[i - 1] by {}
        }
    }
}

/// Every bundle is a run of more than one entry, and says what there is to say of that run.
pub proof fn bundles_are_runs(entries: Seq<AgentThreadEntry>, offset: int)
    requires
        0 <= offset,
    ensures
        forall|i: int|
            0 <= i < bundles_from(entries, 0, offset).len() ==> {
                let bundle = #[trigger] bundles_from(entries, 0, offset)[i];
                &&& is_run(entries, bundle.start - offset, bundle.end - offset)
                &&& bundle.end - bundle.start > 1
                &&& bundle == describe(
                    entries,
                    bundle.start - offset,
                    bundle.end - offset,
                    offset,
                )
            },
{
    bundles_from_are_runs(entries, 0, offset);
}

proof fn bundles_from_are_runs(entries: Seq<AgentThreadEntry>, start: int, offset: int)
    requires
        0 <= start <= entries.len(),
        fresh(entries, start),
        0 <= offset,
    ensures
        forall|i: int|
            0 <= i < bundles_from(entries, start, offset).len() ==> {
                let bundle = #[trigger] bundles_from(entries, start, offset)[i];
                &&& is_run(entries, bundle.start - offset, bundle.end - offset)
                &&& bundle.end - bundle.start > 1
                &&& bundle == describe(
                    entries,
                    bundle.start - offset,
                    bundle.end - offset,
                    offset,
                )
            },
    decreases entries.len() - start,
{
    eligibility_is_told_of_all();
    if start < entries.len() {
        run_end_is_run(entries, start);
        let end = run_end(entries, start);
        if end <= start + 1 {
            bundles_from_are_runs(entries, start + 1, offset);
        } else {
            bundles_from_are_runs(entries, end, offset);
            assert(eligible(entries[start]));
            assert(is_run(entries, start, end));
            let rest = bundles_from(entries, end, offset);
            let all = bundles_from(entries, start, offset);
            assert forall|i: int| 0 <= i < all.len() implies {
                let bundle = #[trigger] all[i];
                &&& is_run(entries, bundle.start - offset, bundle.end - offset)
                &&& bundle.end - bundle.start > 1
                &&& bundle == describe(
                    entries,
                    bundle.start - offset,
                    bundle.end - offset,
                    offset,
                )
            } by {
                if i > 0 {
                    assert(all[i] == rest[i - 1]);
                }
            }
        }
    }
}

/// Every run of more than one entry is a bundle.
pub proof fn runs_are_bundles(entries: Seq<AgentThreadEntry>, offset: int, start: int, end: int)
    requires
        0 <= offset,
        is_run(entries, start, end),
        end - start > 1,
    ensures
        bundles_from(entries, 0, offset).contains(describe(entries, start, end, offset)),
{
    run_is_in_bundles_from(entries, 0, offset, start, end);
}

proof fn run_is_in_bundles_from(
    entries: Seq<AgentThreadEntry>,
    from: int,
    offset: int,
    start: int,
    end: int,
)
    requires
        0 <= offset,
        0 <= from <= start,
        is_run(entries, start, end),
        end - start > 1,
    ensures
        bundles_from(entries, from, offset).contains(describe(entries, start, end, offset)),
    decreases start - from,
{
    eligibility_is_told_of_all();
    let run = describe(entries, start, end, offset);
    run_end_is_run(entries, from);
    let stop = run_end(entries, from);
    if from == start {
        run_is_run_end(entries, start, end);
        assert(bundles_from(entries, from, offset)[0] == run);
    } else if stop <= from + 1 {
        run_is_in_bundles_from(entries, from + 1, offset, start, end);
    } else {
        if stop > start {
            // The entry before the run would be eligible and not terminating.
            assert(eligible(entries[start - 1]));
            assert(!terminating(entries[start - 1]));
        }
        run_is_in_bundles_from(entries, stop, offset, start, end);
        let rest = bundles_from(entries, stop, offset);
        let i = choose|i: int| 0 <= i < rest.len() && rest[i] == run;
        assert(bundles_from(entries, from, offset)[i + 1] == run);
    }
}

/// Whether the entry at `ix` and the one behind it stand in the same run.
pub open spec fn joined(entries: Seq<AgentThreadEntry>, ix: int) -> bool {
    &&& 0 <= ix < entries.len() - 1
    &&& groupable(entries[ix])
    &&& !addresses_user(entries[ix])
    &&& groupable(entries[ix + 1])
}

/// An entry belongs to a bundle exactly if it stands in the same run as the entry before it or as
/// the entry behind it.
pub proof fn bundled_means_joined(entries: Seq<AgentThreadEntry>, offset: int, ix: int)
    requires
        0 <= offset,
        0 <= ix < entries.len(),
    ensures
        (exists|i: int|
            0 <= i < bundles_from(entries, 0, offset).len() && (#[trigger] bundles_from(
                entries,
                0,
                offset,
            )[i]).start <= ix + offset < bundles_from(entries, 0, offset)[i].end) <==> joined(
            entries,
            ix - 1,
        ) || joined(entries, ix),
{
    eligibility_is_told_of_all();
    let bundles = bundles_from(entries, 0, offset);
    bundles_are_runs(entries, offset);
    if exists|i: int|
        0 <= i < bundles.len() && (#[trigger] bundles[i]).start <= ix + offset < bundles[i].end {
        let i = choose|i: int|
            0 <= i < bundles.len() && (#[trigger] bundles[i]).start <= ix + offset < bundles[i].end;
        let start = bundles[i].start - offset;
        let end = bundles[i].end - offset;
        assert(is_run(entries, start, end));
        assert(eligible(entries[ix]));
        if ix + 1 < end {
            assert(eligible(entries[ix + 1]));
            assert(!terminating(entries[ix]));
        } else {
            assert(eligible(entries[ix - 1]));
            assert(!terminating(entries[ix - 1]));
        }
    }
    if joined(entries, ix - 1) || joined(entries, ix) {
        let start = run_has_start(entries, ix);
        run_end_is_run(entries, start);
        let end = run_end(entries, start);
        if end <= ix {
            assert(eligible(entries[end]));
            assert(!terminating(entries[end - 1]));
        }
        assert(eligible(entries[start]));
        assert(is_run(entries, start, end));
        runs_are_bundles(entries, offset, start, end);
        let i = choose|i: int|
            0 <= i < bundles.len() && bundles[i] == describe(entries, start, end, offset);
        assert(bundles[i].start <= ix + offset < bundles[i].end);
    }
}

/// The sum of some counts.
pub open spec fn sum(counts: Seq<nat>) -> nat
    decreases counts.len(),
{
    if counts.len() == 0 {
        0
    } else {
        sum(counts.drop_last()) + counts.last()
    }
}

/// One more of one kind is one more in all.
proof fn sum_of_one_more(before: Seq<nat>, after: Seq<nat>, key: int)
    requires
        before.len() == after.len(),
        0 <= key < before.len(),
        forall|i: int|
            0 <= i < before.len() ==> #[trigger] after[i] == before[i] + (if i == key {
                1nat
            } else {
                0nat
            }),
    ensures
        sum(after) == sum(before) + 1,
    decreases before.len(),
{
    if key == before.len() - 1 {
        assert(after.drop_last() =~= before.drop_last());
    } else {
        sum_of_one_more(before.drop_last(), after.drop_last(), key);
    }
}

proof fn sum_of_none(counts: Seq<nat>)
    requires
        forall|i: int| 0 <= i < counts.len() ==> #[trigger] counts[i] == 0,
    ensures
        sum(counts) == 0,
    decreases counts.len(),
{
    if counts.len() > 0 {
        sum_of_none(counts.drop_last());
    }
}

/// The tool calls of each kind in a bundle add up to all its tool calls.
pub proof fn kinds_add_up(entries: Seq<AgentThreadEntry>, start: int, end: int, offset: int)
    ensures
        sum(describe(entries, start, end, offset).kinds) == describe(
            entries,
            start,
            end,
            offset,
        ).tool_calls,
    decreases end - start,
{
    let after = describe(entries, start, end, offset).kinds;
    if end <= start {
        assert forall|i: int| 0 <= i < after.len() implies #[trigger] after[i] == 0 by {}
        sum_of_none(after);
    } else {
        let before = describe(entries, start, end - 1, offset).kinds;
        kinds_add_up(entries, start, end - 1, offset);
        let last = entries[end - 1];
        assert forall|i: int| 0 <= i < after.len() implies #[trigger] after[i] == before[i]
            + kind_weight(kinds_in_order()[i])(last) by {}
        if let AgentThreadEntry::ToolCall(call) = last {
            kinds_and_sort_keys_correspond(call.kind);
            let key = choose|key: int|
                0 <= key < TOOL_KIND_COUNT && kinds_in_order()[key] == call.kind;
            sum_of_one_more(before, after, key);
        } else {
            assert(after =~= before);
        }
    }
}

/// The counts that a bundle lists are those that are not zero, each under its kind, in the order
/// of kinds.
pub proof fn nonzero_counts_are_listed_in_order(counts: Seq<u32>, n: int)
    requires
        0 <= n <= TOOL_KIND_COUNT,
    ensures
        forall|key: int|
            0 <= key < n && counts[key] > 0 ==> nonzero_counts(counts, n).contains(
                (#[trigger] kinds_in_order()[key], counts[key]),
            ),
        forall|i: int|
            0 <= i < nonzero_counts(counts, n).len() ==> exists|key: int|
                0 <= key < n && counts[key] > 0 && #[trigger] nonzero_counts(counts, n)[i] == (
                    kinds_in_order()[key],
                    #[trigger] counts[key],
                ),
        forall|i: int, j: int, a: int, b: int|
            0 <= i < j < nonzero_counts(counts, n).len() && 0 <= a < n && 0 <= b < n
                && (#[trigger] nonzero_counts(counts, n)[i]).0 == #[trigger] kinds_in_order()[a]
                && (#[trigger] nonzero_counts(counts, n)[j]).0 == #[trigger] kinds_in_order()[b]
                ==> a < b,
    decreases n,
{
    if n > 0 {
        nonzero_counts_are_listed_in_order(counts, n - 1);
        kinds_and_sort_keys_correspond(ToolKind::Other);
        let before = nonzero_counts(counts, n - 1);
        let after = nonzero_counts(counts, n);
        assert forall|key: int| 0 <= key < n && counts[key] > 0 implies after.contains(
            (#[trigger] kinds_in_order()[key], counts[key]),
        ) by {
            if key < n - 1 {
                let i = choose|i: int|
                    0 <= i < before.len() && before[i] == (kinds_in_order()[key], counts[key]);
                assert(after[i] == before[i]);
            } else {
                assert(after.last() == (kinds_in_order()[key], counts[key]));
            }
        }
        assert forall|i: int| 0 <= i < after.len() implies exists|key: int|
            0 <= key < n && counts[key] > 0 && #[trigger] after[i] == (
                kinds_in_order()[key],
                #[trigger] counts[key],
            ) by {
            if i < before.len() {
                assert(after[i] == before[i]);
                let key = choose|key: int|
                    0 <= key < n - 1 && counts[key] > 0 && before[i] == (
                        kinds_in_order()[key],
                        #[trigger] counts[key],
                    );
                assert(after[i] == (kinds_in_order()[key], counts[key]));
            } else {
                let key: int = n - 1;
                assert(after[i] == (kinds_in_order()[key], counts[key]));
            }
        }
        assert forall|i: int, j: int, a: int, b: int|
            0 <= i < j < after.len() && 0 <= a < n && 0 <= b < n && (#[trigger] after[i]).0
                == #[trigger] kinds_in_order()[a] && (#[trigger] after[j]).0
                == #[trigger] kinds_in_order()[b] implies a < b by {
            assert(after[i] == before[i]);
            let key = choose|key: int|
                0 <= key < n - 1 && counts[key] > 0 && before[i] == (
                    kinds_in_order()[key],
                    #[trigger] counts[key],
                );
            assert(a == key);
            if j < before.len() {
                assert(after[j] == before[j]);
                let other = choose|other: int|
                    0 <= other < n - 1 && counts[other] > 0 && before[j] == (
                        kinds_in_order()[other],
                        #[trigger] counts[other],
                    );
                assert(b == other);
            } else {
                assert(b == n - 1);
            }
        }
    }
}

/// A bundle in a thread that has `by` more entries in front: its place is another, and with it its
/// group identifier and the identifier that it has on account of its place. All else is the same.
pub open spec fn shifted(bundle: BundleView, by: int) -> BundleView {
    BundleView {
        start: bundle.start + by,
        end: bundle.end + by,
        id: match bundle.id {
            BundleIdView::ToolCall(id) => BundleIdView::ToolCall(id),
            BundleIdView::Thoughts(start) => BundleIdView::Thoughts(start + by),
        },
        group_id: "bundle-header-"@ + decimal((bundle.start + by) as nat),
        ..bundle
    }
}

/// An offset shifts bundles and does nothing else to them.
pub proof fn offset_only_shifts(entries: Seq<AgentThreadEntry>, start: int, offset: int)
    requires
        0 <= start <= entries.len(),
    ensures
        bundles_from(entries, start, offset).len() == bundles_from(entries, start, 0).len(),
        forall|i: int|
            0 <= i < bundles_from(entries, start, 0).len() ==> #[trigger] bundles_from(
                entries,
                start,
                offset,
            )[i] == shifted(bundles_from(entries, start, 0)[i], offset),
    decreases entries.len() - start,
{
    if start < entries.len() {
        run_end_bounds(entries, start);
        let end = run_end(entries, start);
        if end <= start + 1 {
            offset_only_shifts(entries, start + 1, offset);
        } else {
            offset_only_shifts(entries, end, offset);
            let all = bundles_from(entries, start, offset);
            let plain = bundles_from(entries, start, 0);
            assert forall|i: int| 0 <= i < plain.len() implies #[trigger] all[i] == shifted(
                plain[i],
                offset,
            ) by {
                if i == 0 {
                    let run = describe(entries, start, end, offset);
                    assert(run =~= shifted(describe(entries, start, end, 0), offset));
                } else {
                    assert(all[i] == bundles_from(entries, end, offset)[i - 1]);
                    assert(plain[i] == bundles_from(entries, end, 0)[i - 1]);
                }
            }
        }
    }
}

/// No two bundles have the same group identifier.
pub proof fn group_ids_are_distinct(entries: Seq<AgentThreadEntry>, offset: int)
    requires
        0 <= offset,
    ensures
        forall|i: int, j: int|
            0 <= i < j < bundles_from(entries, 0, offset).len() ==> (#[trigger] bundles_from(
                entries,
                0,
                offset,
            )[i]).group_id != (#[trigger] bundles_from(entries, 0, offset)[j]).group_id,
{
    let bundles = bundles_from(entries, 0, offset);
    bundles_are_ordered(entries, 0, offset);
    bundles_are_runs(entries, offset);
    assert forall|i: int, j: int| 0 <= i < j < bundles.len() implies (
    #[trigger] bundles[i]).group_id != (#[trigger] bundles[j]).group_id by {
        let a = decimal(bundles[i].start as nat);
        let b = decimal(bundles[j].start as nat);
        let prefix = "bundle-header-"@;
        if bundles[i].group_id == bundles[j].group_id {
            assert(a =~= (prefix + a).skip(prefix.len() as int));
            assert(b =~= (prefix + b).skip(prefix.len() as int));
            decimal_tells_numbers_apart(bundles[i].start as nat, bundles[j].start as nat);
        }
    }
}

/// Whether no two tool calls have the same identifier.
pub open spec fn calls_are_distinct(entries: Seq<AgentThreadEntry>) -> bool {
    forall|i: int, j: int|
        0 <= i < j < entries.len() && call_id(#[trigger] entries[i]) is Some ==> call_id(entries[i])
            != call_id(#[trigger] entries[j])
}

/// The first tool call of some entries is one of them.
proof fn first_call_is_a_call(entries: Seq<AgentThreadEntry>, start: int, end: int) -> (ix: int)
    requires
        first_call(entries, start, end) is Some,
    ensures
        start <= ix < end,
        call_id(entries[ix]) == first_call(entries, start, end),
    decreases end - start,
{
    if first_call(entries, start, end - 1) is Some {
        first_call_is_a_call(entries, start, end - 1)
    } else {
        end - 1
    }
}

/// If no two tool calls have the same identifier, neither have two bundles.
pub proof fn bundle_ids_are_distinct(entries: Seq<AgentThreadEntry>, offset: int)
    requires
        0 <= offset,
        calls_are_distinct(entries),
    ensures
        forall|i: int, j: int|
            0 <= i < j < bundles_from(entries, 0, offset).len() ==> (#[trigger] bundles_from(
                entries,
                0,
                offset,
            )[i]).id != (#[trigger] bundles_from(entries, 0, offset)[j]).id,
{
    let bundles = bundles_from(entries, 0, offset);
    bundles_are_ordered(entries, 0, offset);
    bundles_are_runs(entries, offset);
    assert forall|i: int, j: int| 0 <= i < j < bundles.len() implies (#[trigger] bundles[i]).id != (
    #[trigger] bundles[j]).id by {
        let (a, b) = (bundles[i], bundles[j]);
        assert(a.end <= b.start);
        if first_call(entries, a.start - offset, a.end - offset) is Some && first_call(
            entries,
            b.start - offset,
            b.end - offset,
        ) is Some {
            let p = first_call_is_a_call(entries, a.start - offset, a.end - offset);
            let q = first_call_is_a_call(entries, b.start - offset, b.end - offset);
            assert(call_id(entries[p]) != call_id(entries[q]));
        }
    }
}

/// A bundle that has a tool call keeps its identifier when its place in the thread changes and when
/// it grows.
pub proof fn call_bundle_keeps_its_id(
    entries: Seq<AgentThreadEntry>,
    start: int,
    end: int,
    longer_end: int,
    offset: int,
    other_offset: int,
)
    requires
        start <= end <= longer_end,
        first_call(entries, start, end) is Some,
    ensures
        describe(entries, start, longer_end, other_offset).id == describe(
            entries,
            start,
            end,
            offset,
        ).id,
    decreases longer_end - end,
{
    if end < longer_end {
        call_bundle_keeps_its_id(entries, start, end, longer_end - 1, offset, other_offset);
    }
}

/// Two neighbours that stand in the same run lie in a common bundle, and any two entries of a common
/// bundle that stand next to each other do stand in the same run.
pub proof fn joined_neighbors_share_a_bundle(entries: Seq<AgentThreadEntry>, offset: int, ix: int)
    requires
        0 <= offset,
        0 <= ix < entries.len() - 1,
    ensures
        joined(entries, ix) <==> exists|i: int|
            0 <= i < bundles_from(entries, 0, offset).len() && (#[trigger] bundles_from(
                entries,
                0,
                offset,
            )[i]).start <= ix + offset && ix + 1 + offset < bundles_from(entries, 0, offset)[i].end,
{
    eligibility_is_told_of_all();
    let bundles = bundles_from(entries, 0, offset);
    bundles_are_runs(entries, offset);
    if exists|i: int|
        0 <= i < bundles.len() && (#[trigger] bundles[i]).start <= ix + offset && ix + 1 + offset
            < bundles[i].end {
        let i = choose|i: int|
            0 <= i < bundles.len() && (#[trigger] bundles[i]).start <= ix + offset && ix + 1
                + offset < bundles[i].end;
        assert(is_run(entries, bundles[i].start - offset, bundles[i].end - offset));
        assert(groupable(entries[ix]));
        assert(groupable(entries[ix + 1]));
        assert(!addresses_user(entries[ix]));
    }
    if joined(entries, ix) {
        let start = run_has_start(entries, ix);
        run_end_is_run(entries, start);
        let end = run_end(entries, start);
        if end <= ix {
            assert(eligible(entries[end]));
            assert(!terminating(entries[end - 1]));
        }
        if end == ix + 1 {
            assert(eligible(entries[end]));
            assert(!terminating(entries[end - 1]));
        }
        assert(eligible(entries[start]));
        assert(is_run(entries, start, end));
        runs_are_bundles(entries, offset, start, end);
        let i = choose|i: int|
            0 <= i < bundles.len() && bundles[i] == describe(entries, start, end, offset);
        assert(bundles[i].start <= ix + offset && ix + 1 + offset < bundles[i].end);
    }
}

/// Computing bundles gives, one after another, the runs of more than one entry and nothing else.
pub proof fn computed_bundles_are_the_runs(
    entries: &[AgentThreadEntry],
    offset: usize,
    bundles: Vec<ToolCallBundle>,
)
    requires
        tallies_fit(entries@),
        offset + entries@.len() <= usize::MAX,
        call_ensures(compute_tool_call_bundles, (entries, offset), bundles),
    ensures
        forall|k: int|
            0 <= k < bundles@.len() ==> {
                let bundle = #[trigger] bundles@[k];
                &&& bundle.end_index - bundle.start_index > 1
                &&& is_run(entries@, bundle.start_index - offset, bundle.end_index - offset)
            },
        forall|k: int, l: int|
            0 <= k < l < bundles@.len() ==> (#[trigger] bundles@[k]).end_index <= (
            #[trigger] bundles@[l]).start_index,
        forall|start: int, end: int| #[trigger]
            is_run(entries@, start, end) && end - start > 1 ==> exists|k: int|
                0 <= k < bundles@.len() && (#[trigger] bundles@[k]).start_index == start + offset
                    && bundles@[k].end_index == end + offset,
{
    let all = bundles_from(entries@, 0, offset as int);
    assert(views(bundles@) == all);
    assert forall|k: int| 0 <= k < bundles@.len() implies (#[trigger] bundles@[k])@ == all[k] by {
        assert(views(bundles@)[k] == bundles@[k]@);
    }
    bundles_are_runs(entries@, offset as int);
    bundles_are_ordered(entries@, 0, offset as int);
    assert forall|k: int, l: int| 0 <= k < l < bundles@.len() implies (
    #[trigger] bundles@[k]).end_index <= (#[trigger] bundles@[l]).start_index by {
        assert(all[k].end <= all[l].start);
    }
    assert forall|start: int, end: int| #[trigger]
        is_run(entries@, start, end) && end - start > 1 implies exists|k: int|
        0 <= k < bundles@.len() && (#[trigger] bundles@[k]).start_index == start + offset
            && bundles@[k].end_index == end + offset by {
        runs_are_bundles(entries@, offset as int, start, end);
        let k = choose|k: int|
            0 <= k < all.len() && all[k] == describe(entries@, start, end, offset as int);
        assert(bundles@[k].start_index == start + offset);
    }
}

/// One more chunk is one more thought if it is one. A message has a thought if its thoughts are not
/// none, and text if they are not all.
pub proof fn thoughts_are_counted(chunks: Seq<AssistantMessageChunk>, chunk: AssistantMessageChunk)
    ensures
        thoughts_among(Seq::<AssistantMessageChunk>::empty()) == 0,
        thoughts_among(chunks.push(chunk)) == thoughts_among(chunks) + if chunk
            == AssistantMessageChunk::Thought {
            1nat
        } else {
            0nat
        },
        chunks.contains(AssistantMessageChunk::Thought) <==> thoughts_among(chunks) > 0,
        chunks.contains(AssistantMessageChunk::Message) <==> thoughts_among(chunks) < chunks.len(),
{
    reveal(Seq::filter);
    assert(chunks.push(chunk).drop_last() =~= chunks);
    thoughts_and_text(chunks);
}

proof fn thoughts_and_text(chunks: Seq<AssistantMessageChunk>)
    ensures
        thoughts_among(chunks) <= chunks.len(),
        chunks.contains(AssistantMessageChunk::Thought) <==> thoughts_among(chunks) > 0,
        chunks.contains(AssistantMessageChunk::Message) <==> thoughts_among(chunks) < chunks.len(),
    decreases chunks.len(),
{
    reveal(Seq::filter);
    if chunks.len() > 0 {
        let shorter = chunks.drop_last();
        thoughts_and_text(shorter);
        assert(chunks =~= shorter.push(chunks.last()));
        push_contains(shorter, chunks.last(), AssistantMessageChunk::Thought);
        push_contains(shorter, chunks.last(), AssistantMessageChunk::Message);
    }
}

/// An entry has the thoughts of its message, and none if it is not one. They are trailing for the
/// entry before only where the message has text as well.
pub proof fn thoughts_of_an_entry(
    entries: &[AgentThreadEntry],
    at: usize,
    own: usize,
    trailing: usize,
)
    requires
        at < entries@.len(),
        call_ensures(entry_thought_count, (&entries@[at as int],), own),
        call_ensures(trailing_thought_count, (entries, at), trailing),
    ensures
        entries@[at as int] matches AgentThreadEntry::AssistantMessage(message) ==> {
            &&& own == thoughts_among(message.chunks@)
            &&& trailing == if message.chunks@.contains(AssistantMessageChunk::Message) {
                own as int
            } else {
                0
            }
        },
        !(entries@[at as int] is AssistantMessage) ==> own == 0 && trailing == 0,
{
    eligibility_is_told_by_the_fields(entries@[at as int]);
}

/// Behind the last entry there are no trailing thoughts.
pub proof fn nothing_trails_the_last_entry(entries: &[AgentThreadEntry], at: usize, trailing: usize)
    requires
        entries@.len() <= at,
        call_ensures(trailing_thought_count, (entries, at), trailing),
    ensures
        trailing == 0,
{
}

/// The counts of a run are those of its two parts added up, wherever it is parted.
pub proof fn counts_of_parts_add_up(
    entries: Seq<AgentThreadEntry>,
    start: int,
    middle: int,
    end: int,
    offset: int,
)
    requires
        start <= middle <= end,
    ensures
        ({
            let whole = describe(entries, start, end, offset);
            let first = describe(entries, start, middle, offset);
            let rest = describe(entries, middle, end, offset);
            &&& whole.tool_calls == first.tool_calls + rest.tool_calls
            &&& whole.thoughts == first.thoughts + rest.thoughts
            &&& whole.kinds.len() == TOOL_KIND_COUNT
            &&& forall|key: int|
                0 <= key < TOOL_KIND_COUNT ==> #[trigger] whole.kinds[key] == first.kinds[key]
                    + rest.kinds[key]
        }),
{
    totals_add_up(entries, start, middle, end, call_weight());
    totals_add_up(entries, start, middle, end, thought_weight());
    assert forall|key: int| 0 <= key < TOOL_KIND_COUNT implies #[trigger] describe(
        entries,
        start,
        end,
        offset,
    ).kinds[key] == describe(entries, start, middle, offset).kinds[key] + describe(
        entries,
        middle,
        end,
        offset,
    ).kinds[key] by {
        totals_add_up(entries, start, middle, end, kind_weight(kinds_in_order()[key]));
    }
}

proof fn totals_add_up(
    entries: Seq<AgentThreadEntry>,
    start: int,
    middle: int,
    end: int,
    weight: spec_fn(AgentThreadEntry) -> nat,
)
    requires
        start <= middle <= end,
    ensures
        total(entries, start, end, weight) == total(entries, start, middle, weight) + total(
            entries,
            middle,
            end,
            weight,
        ),
    decreases end - middle,
{
    if middle < end {
        totals_add_up(entries, start, middle, end - 1, weight);
    }
}

/// A tool call counts once, and under its kind; a message counts with its thoughts; nothing else
/// counts.
pub proof fn counts_of_one_entry(entries: Seq<AgentThreadEntry>, ix: int, offset: int)
    ensures
        ({
            let one = describe(entries, ix, ix + 1, offset);
            &&& one.tool_calls == if entries[ix] is ToolCall {
                1nat
            } else {
                0nat
            }
            &&& one.thoughts == match entries[ix] {
                AgentThreadEntry::AssistantMessage(message) => thoughts_among(message.chunks@),
                _ => 0nat,
            }
            &&& forall|key: int|
                0 <= key < TOOL_KIND_COUNT ==> #[trigger] one.kinds[key] == if (
                entries[ix] matches AgentThreadEntry::ToolCall(call) && call.kind
                    == kinds_in_order()[key]) {
                    1nat
                } else {
                    0nat
                }
        }),
{
    reveal_with_fuel(total, 2);
}

/// A bundle goes by the identifier of its earliest tool call; where there is none, by its place.
pub proof fn bundles_go_by_their_earliest_call(
    entries: Seq<AgentThreadEntry>,
    start: int,
    end: int,
    offset: int,
)
    ensures
        forall|i: int|
            start <= i < end && (#[trigger] entries[i]) is ToolCall && (forall|j: int|
                start <= j < i ==> !((#[trigger] entries[j]) is ToolCall)) ==> describe(
                entries,
                start,
                end,
                offset,
            ).id == BundleIdView::ToolCall(entries[i]->ToolCall_0.id@),
        (forall|i: int| start <= i < end ==> !((#[trigger] entries[i]) is ToolCall)) ==> describe(
            entries,
            start,
            end,
            offset,
        ).id == BundleIdView::Thoughts(start + offset),
    decreases end - start,
{
    if start < end {
        bundles_go_by_their_earliest_call(entries, start, end - 1, offset);
        if forall|i: int| start <= i < end - 1 ==> !((#[trigger] entries[i]) is ToolCall) {
            no_call_no_first(entries, start, end - 1);
        }
    }
}

proof fn no_call_no_first(entries: Seq<AgentThreadEntry>, start: int, end: int)
    requires
        forall|i: int| start <= i < end ==> !((#[trigger] entries[i]) is ToolCall),
    ensures
        first_call(entries, start, end) is None,
    decreases end - start,
{
    if start < end {
        no_call_no_first(entries, start, end - 1);
    }
}

/// A bundle is labelled with its tool calls and its thoughts, those included that trail it: the
/// thoughts of a message right behind it that has text as well.
pub proof fn bundles_are_labelled_with_what_trails_them(
    entries: Seq<AgentThreadEntry>,
    start: int,
    end: int,
    offset: int,
)
    ensures
        ({
            let bundle = describe(entries, start, end, offset);
            &&& bundle.start == start + offset
            &&& bundle.end == end + offset
            &&& bundle.trailing_thoughts == if 0 <= end < entries.len() && addresses_user(
                entries[end],
            ) {
                thoughts_among(entries[end]->AssistantMessage_0.chunks@)
            } else {
                0
            }
            &&& bundle.label == label(
                bundle.thoughts + bundle.trailing_thoughts,
                bundle.tool_calls,
            )
            &&& bundle.group_id == "bundle-header-"@ + decimal(bundle.start as nat)
        }),
{
    if 0 <= end < entries.len() {
        eligibility_is_told_by_the_fields(entries[end]);
    }
}

/// A bundle lists the kinds that occur among its tool calls, each with how often it occurs.
pub proof fn listed_counts_are_the_bundles(
    bundle: ToolCallBundle,
    counts: Vec<(ToolKind, u32)>,
)
    requires
        call_ensures(ToolCallBundle::kind_counts_iter, (&bundle,), counts),
    ensures
        forall|key: int|
            0 <= key < TOOL_KIND_COUNT && bundle@.kinds[key] > 0 ==> counts@.contains(
                (#[trigger] kinds_in_order()[key], bundle@.kinds[key] as u32),
            ),
        forall|i: int|
            0 <= i < counts@.len() ==> exists|key: int|
                0 <= key < TOOL_KIND_COUNT && (#[trigger] counts@[i]).0
                    == #[trigger] kinds_in_order()[key] && counts@[i].1 == bundle@.kinds[key]
                    && counts@[i].1 > 0,
        forall|i: int, j: int|
            0 <= i < j < counts@.len() ==> (#[trigger] counts@[i]).0 != (#[trigger] counts@[j]).0,
{
    let all = bundle.kind_counts@;
    let n = TOOL_KIND_COUNT as int;
    nonzero_counts_are_listed_in_order(all, n);
    assert forall|key: int| 0 <= key < n && bundle@.kinds[key] > 0 implies counts@.contains(
        (#[trigger] kinds_in_order()[key], bundle@.kinds[key] as u32),
    ) by {
        assert(all[key] > 0);
    }
    assert forall|i: int| 0 <= i < counts@.len() implies exists|key: int|
        0 <= key < n && (#[trigger] counts@[i]).0 == #[trigger] kinds_in_order()[key]
            && counts@[i].1 == bundle@.kinds[key] && counts@[i].1 > 0 by {
        let key = choose|key: int|
            0 <= key < n && all[key] > 0 && nonzero_counts(all, n)[i] == (
                kinds_in_order()[key],
                #[trigger] all[key],
            );
        assert(counts@[i].0 == kinds_in_order()[key]);
    }
    assert forall|i: int, j: int| 0 <= i < j < counts@.len() implies (#[trigger] counts@[i]).0 != (
    #[trigger] counts@[j]).0 by {
        let a = choose|a: int|
            0 <= a < n && all[a] > 0 && nonzero_counts(all, n)[i] == (
                kinds_in_order()[a],
                #[trigger] all[a],
            );
        if counts@[i].0 == counts@[j].0 {
            assert(nonzero_counts(all, n)[j].0 == kinds_in_order()[a]);
            assert(nonzero_counts(all, n)[i].0 == kinds_in_order()[a]);
        }
    }
}

} // verus!
