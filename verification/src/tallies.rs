//! Whether the counts of bundles fit the integers that hold them.

use vstd::prelude::*;

use crate::bundle::{
    bundles_from, describe, eligible, entry_thought_count, is_entry_bundle_eligible,
    is_entry_bundle_terminating, kind_weight, run_end, run_end_bounds, run_fits, tallies_fit,
    terminating, thought_weight, thoughts_among, thoughts_in, total, trailing_thought_count,
};
use crate::bundle_laws::{
    addresses_user, bundles_are_runs, eligibility_is_told_by_the_fields, groupable, is_run,
    run_end_is_run, run_has_start, run_is_run_end, runs_are_bundles,
};
use crate::thread::{AgentThreadEntry, AssistantMessageChunk, ToolKind};
use crate::tool_kind::{
    kinds_and_sort_keys_correspond, kinds_in_order, tool_kind_sort_key, TOOL_KIND_COUNT,
};

verus! {

/// A sum is the first weight and the sum of the others.
proof fn total_front(
    entries: Seq<AgentThreadEntry>,
    start: int,
    end: int,
    weight: spec_fn(AgentThreadEntry) -> nat,
)
    requires
        start < end,
    ensures
        total(entries, start, end, weight) == weight(entries[start]) + total(
            entries,
            start + 1,
            end,
            weight,
        ),
    decreases end - start,
{
    reveal_with_fuel(total, 2);
    if start + 1 < end {
        total_front(entries, start, end - 1, weight);
    }
}

/// A sum is at most the number of its weights times the largest that a weight can be.
proof fn total_at_most(
    entries: Seq<AgentThreadEntry>,
    start: int,
    end: int,
    weight: spec_fn(AgentThreadEntry) -> nat,
    most: nat,
)
    requires
        start <= end,
        forall|i: int| start <= i < end ==> weight(#[trigger] entries[i]) <= most,
    ensures
        total(entries, start, end, weight) <= (end - start) * most,
    decreases end - start,
{
    if start < end {
        total_at_most(entries, start, end - 1, weight, most);
        assert(weight(entries[end - 1]) <= most);
        assert((end - start) * most == (end - 1 - start) * most + most) by (nonlinear_arith);
    } else {
        assert((end - start) * most == 0) by (nonlinear_arith)
            requires
                end == start,
        ;
    }
}

/// A message has no more thoughts than chunks.
proof fn thoughts_at_most(chunks: Seq<AssistantMessageChunk>)
    ensures
        thoughts_among(chunks) <= chunks.len(),
    decreases chunks.len(),
{
    reveal(Seq::filter);
    if chunks.len() > 0 {
        thoughts_at_most(chunks.drop_last());
    }
}

/// Whether a thread has fewer than 65536 entries, and each of its messages fewer than 65536 chunks.
pub open spec fn short(entries: Seq<AgentThreadEntry>) -> bool {
    &&& entries.len() < 0x1_0000
    &&& forall|i: int|
        0 <= i < entries.len() ==> ((#[trigger] entries[i]) matches
            AgentThreadEntry::AssistantMessage(message) ==> message.chunks@.len() < 0x1_0000)
}

/// In a short thread, the counts of every bundle fit.
pub proof fn tallies_of_short_threads_fit(entries: Seq<AgentThreadEntry>)
    requires
        short(entries),
    ensures
        tallies_fit(entries),
{
    assert forall|i: int| 0 <= i < entries.len() implies thoughts_in(#[trigger] entries[i])
        < 0x1_0000 by {
        if let AgentThreadEntry::AssistantMessage(message) = entries[i] {
            thoughts_at_most(message.chunks@);
        }
    }
    assert forall|start: int| 0 <= start < entries.len() implies run_fits(
        entries,
        start,
        #[trigger] run_end(entries, start),
    ) by {
        run_end_bounds(entries, start);
        let end = run_end(entries, start);
        total_at_most(entries, start, end, thought_weight(), 0xffff);
        assert((end - start) * 0xffff <= 0xffff * 0xffff) by (nonlinear_arith)
            requires
                end - start <= 0xffff,
        ;
        assert forall|kind: ToolKind| #[trigger]
            total(entries, start, end, kind_weight(kind)) <= u32::MAX by {
            total_at_most(entries, start, end, kind_weight(kind), 1);
        }
    }
}

/// Adds one entry in front to how often each kind occurs, unless there is no room for it.
fn add_kind(entry: &AgentThreadEntry, kind_counts: &mut [u32; TOOL_KIND_COUNT]) -> (added: bool)
    ensures
        added == forall|key: int|
            0 <= key < TOOL_KIND_COUNT ==> #[trigger] old(kind_counts)[key] + kind_weight(
                kinds_in_order()[key],
            )(*entry) <= u32::MAX,
        added ==> forall|key: int|
            0 <= key < TOOL_KIND_COUNT ==> #[trigger] final(kind_counts)[key] == old(
                kind_counts,
            )[key] + kind_weight(kinds_in_order()[key])(*entry),
{
    if let AgentThreadEntry::ToolCall(call) = entry {
        let key: usize = tool_kind_sort_key(&call.kind) as usize;
        proof {
            kinds_and_sort_keys_correspond(call.kind);
            assert(kind_weight(kinds_in_order()[key as int])(*entry) == 1);
        }
        let count: u32 = kind_counts[key];
        if count == u32::MAX {
            assert(kind_counts[key as int] + 1 > u32::MAX);
            return false;
        }
        kind_counts[key] = count + 1;
    }
    true
}

/// Whether the counts of every bundle of the entries fit the integers that hold them.
pub fn check_tallies(entries: &[AgentThreadEntry]) -> (fit: bool)
    ensures
        fit == tallies_fit(entries@),
{
    let mut i: usize = entries.len();
    let mut end: usize = i;
    let mut thought_count: usize = 0;
    let mut kind_counts: [u32; TOOL_KIND_COUNT] = [0u32; TOOL_KIND_COUNT];
    while i > 0
        invariant
            i <= end <= entries@.len(),
            end == run_end(entries@, i as int),
            thought_count == total(entries@, i as int, end as int, thought_weight()),
            forall|key: int|
                0 <= key < TOOL_KIND_COUNT ==> #[trigger] kind_counts[key] == total(
                    entries@,
                    i as int,
                    end as int,
                    kind_weight(kinds_in_order()[key]),
                ),
            forall|start: int|
                i <= start < entries@.len() ==> run_fits(
                    entries@,
                    start,
                    #[trigger] run_end(entries@, start),
                ),
        decreases i,
    {
        i -= 1;
        let is_eligible = is_entry_bundle_eligible(&entries[i]);
        if !is_eligible || is_entry_bundle_terminating(&entries[i]) {
            end = if is_eligible { i + 1 } else { i };
            thought_count = 0;
            kind_counts = [0u32; TOOL_KIND_COUNT];
            assert(total(entries@, i + 1, end as int, thought_weight()) == 0);
            assert forall|key: int| 0 <= key < TOOL_KIND_COUNT implies #[trigger] kind_counts[key]
                == total(entries@, i + 1, end as int, kind_weight(kinds_in_order()[key])) by {}
        }
        assert(end == run_end(entries@, i as int));
        if is_eligible {
            proof {
                total_front(entries@, i as int, end as int, thought_weight());
                assert forall|key: int| 0 <= key < TOOL_KIND_COUNT implies #[trigger] total(
                    entries@,
                    i as int,
                    end as int,
                    kind_weight(kinds_in_order()[key]),
                ) == kind_counts[key] + kind_weight(kinds_in_order()[key])(entries@[i as int]) by {
                    total_front(
                        entries@,
                        i as int,
                        end as int,
                        kind_weight(kinds_in_order()[key]),
                    );
                }
            }
            let thoughts: usize = entry_thought_count(&entries[i]);
            let trailing: usize = trailing_thought_count(entries, end);
            match thought_count.checked_add(thoughts) {
                Some(sum) => {
                    thought_count = sum;
                },
                None => {
                    assert(!run_fits(entries@, i as int, run_end(entries@, i as int)));
                    return false;
                },
            }
            if end - i > 1 && thought_count.checked_add(trailing).is_none() {
                assert(!run_fits(entries@, i as int, run_end(entries@, i as int)));
                return false;
            }
            let ghost before = kind_counts;
            if !add_kind(&entries[i], &mut kind_counts) {
                proof {
                    let key = choose|key: int|
                        0 <= key < TOOL_KIND_COUNT && #[trigger] before[key] + kind_weight(
                            kinds_in_order()[key],
                        )(entries@[i as int]) > u32::MAX;
                    assert(total(
                        entries@,
                        i as int,
                        end as int,
                        kind_weight(kinds_in_order()[key]),
                    ) > u32::MAX);
                }
                assert(!run_fits(entries@, i as int, run_end(entries@, i as int)));
                return false;
            }
        }
        assert forall|kind: ToolKind| #[trigger]
            total(entries@, i as int, end as int, kind_weight(kind)) <= u32::MAX by {
            kinds_and_sort_keys_correspond(kind);
            let key = choose|key: int| 0 <= key < TOOL_KIND_COUNT && kinds_in_order()[key] == kind;
            assert(is_eligible ==> kind_counts[key] == total(
                entries@,
                i as int,
                end as int,
                kind_weight(kind),
            ));
        }
        assert(run_fits(entries@, i as int, end as int));
    }
    true
}

/// The counts fit exactly if those of every bundle do: what occurs of each kind, and the thoughts
/// together with those that trail the bundle.
pub proof fn tallies_fit_if_those_of_bundles_do(entries: Seq<AgentThreadEntry>)
    ensures
        tallies_fit(entries) <==> forall|i: int|
            0 <= i < bundles_from(entries, 0, 0).len() ==> {
                let bundle = #[trigger] bundles_from(entries, 0, 0)[i];
                &&& forall|key: int|
                    0 <= key < TOOL_KIND_COUNT ==> #[trigger] bundle.kinds[key] <= u32::MAX
                &&& bundle.thoughts + bundle.trailing_thoughts <= usize::MAX
            },
{
    let bundles = bundles_from(entries, 0, 0);
    bundles_are_runs(entries, 0);
    if tallies_fit(entries) {
        assert forall|i: int| 0 <= i < bundles.len() implies {
            let bundle = #[trigger] bundles[i];
            &&& forall|key: int|
                0 <= key < TOOL_KIND_COUNT ==> #[trigger] bundle.kinds[key] <= u32::MAX
            &&& bundle.thoughts + bundle.trailing_thoughts <= usize::MAX
        } by {
            let bundle = bundles[i];
            run_of_bundle_ends(entries, bundle.start, bundle.end);
            assert(run_fits(entries, bundle.start, run_end(entries, bundle.start)));
        }
    }
    if forall|i: int|
        0 <= i < bundles.len() ==> {
            let bundle = #[trigger] bundles[i];
            &&& forall|key: int|
                0 <= key < TOOL_KIND_COUNT ==> #[trigger] bundle.kinds[key] <= u32::MAX
            &&& bundle.thoughts + bundle.trailing_thoughts <= usize::MAX
        } {
        assert forall|start: int| 0 <= start < entries.len() implies run_fits(
            entries,
            start,
            #[trigger] run_end(entries, start),
        ) by {
            run_end_bounds(entries, start);
            let end = run_end(entries, start);
            if end <= start + 1 {
                short_runs_fit(entries, start, end);
            } else {
                let first = run_starts(entries, start);
                assert(is_run(entries, first, end));
                runs_are_bundles(entries, 0, first, end);
                let i = choose|i: int|
                    0 <= i < bundles.len() && bundles[i] == describe(entries, first, end, 0);
                let bundle = bundles[i];
                tails_count_less(entries, first, start, end, thought_weight());
                assert forall|kind: ToolKind| #[trigger]
                    total(entries, start, end, kind_weight(kind)) <= u32::MAX by {
                    tails_count_less(entries, first, start, end, kind_weight(kind));
                    kinds_and_sort_keys_correspond(kind);
                    let key = choose|key: int|
                        0 <= key < TOOL_KIND_COUNT && kinds_in_order()[key] == kind;
                    assert(bundle.kinds[key] <= u32::MAX);
                }
            }
        }
    }
}

/// The run that a bundle is ends where the run that begins at its start does.
proof fn run_of_bundle_ends(entries: Seq<AgentThreadEntry>, start: int, end: int)
    requires
        is_run(entries, start, end),
    ensures
        run_end(entries, start) == end,
{
    assert forall|i: int| start <= i < end implies eligible(#[trigger] entries[i]) by {
        eligibility_is_told_by_the_fields(entries[i]);
        assert(groupable(entries[i]));
    }
    assert forall|i: int| start <= i < end - 1 implies !terminating(#[trigger] entries[i]) by {
        eligibility_is_told_by_the_fields(entries[i]);
        assert(!addresses_user(entries[i]));
    }
    if end < entries.len() {
        eligibility_is_told_by_the_fields(entries[end]);
    }
    eligibility_is_told_by_the_fields(entries[end - 1]);
    run_is_run_end(entries, start, end);
}

/// Where the run begins that the run from `start` on is the end of.
proof fn run_starts(entries: Seq<AgentThreadEntry>, start: int) -> (first: int)
    requires
        0 <= start < entries.len(),
        run_end(entries, start) > start,
    ensures
        0 <= first <= start,
        is_run(entries, first, run_end(entries, start)),
{
    let first = run_has_start(entries, start);
    let end = run_end(entries, start);
    run_end_is_run(entries, start);
    assert forall|i: int| first <= i < end implies groupable(#[trigger] entries[i]) by {
        eligibility_is_told_by_the_fields(entries[i]);
        if i <= start {
            assert(eligible(entries[i]));
        }
    }
    assert forall|i: int| first <= i < end - 1 implies !addresses_user(#[trigger] entries[i]) by {
        eligibility_is_told_by_the_fields(entries[i]);
        if i < start {
            assert(!terminating(entries[i]));
        }
    }
    if first > 0 {
        eligibility_is_told_by_the_fields(entries[first - 1]);
    }
    if end < entries.len() {
        eligibility_is_told_by_the_fields(entries[end]);
    }
    eligibility_is_told_by_the_fields(entries[end - 1]);
    first
}

/// Counting fewer entries at the front gives no larger a sum.
proof fn tails_count_less(
    entries: Seq<AgentThreadEntry>,
    first: int,
    start: int,
    end: int,
    weight: spec_fn(AgentThreadEntry) -> nat,
)
    requires
        first <= start <= end,
    ensures
        total(entries, start, end, weight) <= total(entries, first, end, weight),
    decreases start - first,
{
    if first < start {
        total_front(entries, first, end, weight);
        tails_count_less(entries, first + 1, start, end, weight);
    }
}

/// The counts of at most one entry fit.
proof fn short_runs_fit(entries: Seq<AgentThreadEntry>, start: int, end: int)
    requires
        start <= end <= start + 1,
    ensures
        run_fits(entries, start, end),
{
    reveal_with_fuel(total, 2);
    if let AgentThreadEntry::AssistantMessage(message) = entries[start] {
        thoughts_at_most(message.chunks@);
        assert(message.chunks.len() == message.chunks@.len());
    }
    assert forall|kind: ToolKind| #[trigger]
        total(entries, start, end, kind_weight(kind)) <= u32::MAX by {
        total_at_most(entries, start, end, kind_weight(kind), 1);
    }
}

/// The check tells whether the counts of every bundle fit.
pub proof fn tallies_are_checked(entries: &[AgentThreadEntry], fit: bool)
    requires
        call_ensures(check_tallies, (entries,), fit),
    ensures
        fit <==> forall|i: int|
            0 <= i < bundles_from(entries@, 0, 0).len() ==> {
                let bundle = #[trigger] bundles_from(entries@, 0, 0)[i];
                &&& forall|key: int|
                    0 <= key < TOOL_KIND_COUNT ==> #[trigger] bundle.kinds[key] <= u32::MAX
                &&& bundle.thoughts + bundle.trailing_thoughts <= usize::MAX
            },
{
    tallies_fit_if_those_of_bundles_do(entries@);
}

} // verus!
