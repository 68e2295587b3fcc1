//! Bringing bundles up to date gives the bundles that computing them from scratch gives.

use vstd::prelude::*;

use crate::bundle::{
    bundles_from, call_id, call_weight, compute_tool_call_bundles, describe, eligible, first_call,
    kind_weight, run_end, run_end_bounds, tallies_fit, terminating, thought_weight, total, views,
    BundleRecomputeHint, BundleView, ToolCallBundle,
};
use crate::bundle_laws::{
    bundles_are_ordered, bundles_are_runs, eligibility_is_told_by_the_fields, groupable, ordered,
};
use crate::recompute::{
    affected_start, bundle_at, bundle_at_is, change_keeps_bundles, check_hint, ends_at,
    get_bundle_for_entry, hint_in_bounds, holds, keeps_bundles, last_by_start, ordered_is_sorted,
    recomputed, refresh_bundles, some_end_at, touched_start, touched_start_bounds, walked_back,
};
use crate::splice::{
    beyond_is_beyond, bundles_move, bundles_splice, describe_agrees, ending_by, ends_by,
    first_beyond, total_agrees,
};
use crate::thread::AgentThreadEntry;
use crate::tool_kind::{kinds_and_sort_keys_correspond, kinds_in_order, TOOL_KIND_COUNT};

verus! {

/// Walking back ends at the start of the entries or behind one that is not eligible.
proof fn walked_back_stops(entries: Seq<AgentThreadEntry>, start: int)
    requires
        0 <= start <= entries.len(),
    ensures
        0 <= walked_back(entries, start) <= start,
        walked_back(entries, start) == 0 || !eligible(entries[walked_back(entries, start) - 1]),
    decreases start,
{
    if start > 0 && eligible(entries[start - 1]) {
        walked_back_stops(entries, start - 1);
    }
}

/// Wherever entries change at `index` or behind it only, what is kept and what is computed anew
/// from the affected entry on add up to all bundles.
proof fn change_behind_is_caught(
    old_entries: Seq<AgentThreadEntry>,
    new_entries: Seq<AgentThreadEntry>,
    index: int,
)
    requires
        0 <= index <= old_entries.len(),
        index <= new_entries.len(),
        forall|i: int| 0 <= i < index ==> #[trigger] old_entries[i] == new_entries[i],
    ensures
        ({
            let bundles = bundles_from(old_entries, 0, 0);
            let at = walked_back(new_entries, touched_start(bundles, index));
            &&& 0 <= touched_start(bundles, index) <= index
            &&& ending_by(bundles, at) + bundles_from(new_entries, at, 0) == bundles_from(
                new_entries,
                0,
                0,
            )
        }),
{
    let bundles = bundles_from(old_entries, 0, 0);
    bundles_are_ordered(old_entries, 0, 0);
    touched_start_bounds(bundles, index);
    walked_back_stops(new_entries, touched_start(bundles, index));
    let at = walked_back(new_entries, touched_start(bundles, index));
    bundles_splice(old_entries, new_entries, at);
}

/// Appending an entry and bringing the bundles up to date gives the bundles of all entries.
pub proof fn new_entry_recompute_is_complete(entries: Seq<AgentThreadEntry>, index: usize)
    requires
        entries.len() == index + 1,
    ensures
        ({
            let before = bundles_from(entries.take(index as int), 0, 0);
            let hint = Some(BundleRecomputeHint::NewEntry(index));
            &&& hint_in_bounds(before, entries, hint)
            &&& recomputed(before, entries, hint) == bundles_from(entries, 0, 0)
        }),
{
    let old_entries = entries.take(index as int);
    change_behind_is_caught(old_entries, entries, index as int);
}

/// Removing entries and bringing the bundles up to date gives the bundles of the entries that are
/// left.
pub proof fn removal_recompute_is_complete(
    entries: Seq<AgentThreadEntry>,
    start: usize,
    end: usize,
)
    requires
        start <= end <= entries.len(),
    ensures
        ({
            let before = bundles_from(entries, 0, 0);
            let left = entries.take(start as int) + entries.skip(end as int);
            let hint = Some(BundleRecomputeHint::EntriesRemoved { range: start..end });
            &&& hint_in_bounds(before, left, hint)
            &&& recomputed(before, left, hint) == bundles_from(left, 0, 0)
        }),
{
    let left = entries.take(start as int) + entries.skip(end as int);
    change_behind_is_caught(entries, left, start as int);
}

/// Whether the update of the entry at `index` leaves the counts and the identifier of the bundle
/// that holds it as they are: the entry is a tool call of the same kind as before, and the first
/// tool call of the bundle goes by the same identifier.
pub open spec fn same_in_bundle(
    old_entries: Seq<AgentThreadEntry>,
    new_entries: Seq<AgentThreadEntry>,
    index: int,
    bundle: BundleView,
) -> bool {
    &&& old_entries[index] matches AgentThreadEntry::ToolCall(before)
    &&& new_entries[index] matches AgentThreadEntry::ToolCall(after)
    &&& before.kind == after.kind
    &&& first_call(old_entries, bundle.start, bundle.end) == first_call(
        new_entries,
        bundle.start,
        bundle.end,
    )
}

/// Updating an entry and bringing the bundles up to date gives the bundles of the entries as they
/// are now exactly if a tool call on account of which the bundles are kept, and which stays in its
/// bundle, counts for the same as before.
pub proof fn update_recompute_is_complete(
    old_entries: Seq<AgentThreadEntry>,
    new_entries: Seq<AgentThreadEntry>,
    index: usize,
)
    requires
        index < old_entries.len(),
        old_entries.len() == new_entries.len(),
        forall|i: int|
            0 <= i < old_entries.len() && i != index ==> #[trigger] old_entries[i]
                == new_entries[i],
    ensures
        ({
            let before = bundles_from(old_entries, 0, 0);
            let hint = Some(BundleRecomputeHint::EntryUpdated(index));
            &&& hint_in_bounds(before, new_entries, hint)
            &&& recomputed(before, new_entries, hint) == bundles_from(new_entries, 0, 0) <==> (
            keeps_bundles(before, new_entries, hint) ==> match bundle_at(before, index as int) {
                Some(bundle) => same_in_bundle(old_entries, new_entries, index as int, bundle),
                None => true,
            })
        }),
{
    let before = bundles_from(old_entries, 0, 0);
    let hint = Some(BundleRecomputeHint::EntryUpdated(index));
    change_behind_is_caught(old_entries, new_entries, index as int);
    bundles_are_ordered(old_entries, 0, 0);
    if keeps_bundles(before, new_entries, hint) {
        match bundle_at(before, index as int) {
            Some(bundle) => {
                let i = choose|i: int| holds(before, index as int, i);
                assert(holds(before, index as int, i));
                assert(before[i] == bundle);
                bundles_are_runs(old_entries, 0);
                assert(eligible(old_entries[index as int]));
                assert forall|j: int|
                    0 <= j < before.len() && (#[trigger] before[j]).start <= index
                        < before[j].end implies before[j] == bundle by {
                    assert(holds(before, index as int, j));
                    bundle_at_is(before, index as int, j);
                }
                if same_in_bundle(old_entries, new_entries, index as int, bundle) {
                    kept_inside(old_entries, new_entries, index as int, bundle, 0);
                } else if before == bundles_from(new_entries, 0, 0) {
                    bundles_are_runs(new_entries, 0);
                    assert(bundles_from(new_entries, 0, 0)[i] == bundle);
                    same_description_means_same(
                        old_entries,
                        new_entries,
                        index as int,
                        bundle,
                    );
                }
            },
            None => {
                assert forall|i: int| 0 <= i < before.len() implies !((#[trigger] before[i]).start
                    <= index <= before[i].end) by {
                    assert(!holds(before, index as int, i));
                }
                kept_outside(old_entries, new_entries, index as int, 0);
            },
        }
    }
}

/// Whether entries are those from before a change, with that change made: one more at the end, one
/// of them updated, or a range of them gone. Where an update results in a tool call, there was one
/// before, with the same identifier and of the same kind.
pub open spec fn changed_by(
    before: Seq<AgentThreadEntry>,
    entries: Seq<AgentThreadEntry>,
    change: BundleRecomputeHint,
) -> bool {
    match change {
        BundleRecomputeHint::NewEntry(index) => {
            &&& entries.len() == index + 1
            &&& before == entries.take(index as int)
        },
        BundleRecomputeHint::EntryUpdated(index) => {
            &&& index < entries.len() == before.len()
            &&& forall|i: int|
                0 <= i < entries.len() && i != index ==> #[trigger] before[i] == entries[i]
            &&& entries[index as int] matches AgentThreadEntry::ToolCall(call)
                ==> (before[index as int] matches AgentThreadEntry::ToolCall(call_before)
                && call_before.id@ == call.id@ && call_before.kind == call.kind)
        },
        BundleRecomputeHint::EntriesRemoved { range } => {
            &&& range.start <= range.end <= before.len()
            &&& entries == before.take(range.start as int) + before.skip(range.end as int)
        },
    }
}

/// Bringing the bundles of the entries before a change up to date gives the bundles of the entries
/// after it.
pub proof fn recompute_is_complete(
    before: Seq<AgentThreadEntry>,
    entries: Seq<AgentThreadEntry>,
    change: BundleRecomputeHint,
)
    requires
        changed_by(before, entries, change),
    ensures
        hint_in_bounds(bundles_from(before, 0, 0), entries, Some(change)),
        recomputed(bundles_from(before, 0, 0), entries, Some(change)) == bundles_from(entries, 0, 0),
{
    match change {
        BundleRecomputeHint::NewEntry(index) => {
            new_entry_recompute_is_complete(entries, index);
        },
        BundleRecomputeHint::EntryUpdated(index) => {
            update_recompute_is_complete(before, entries, index);
            if let Some(bundle) = bundle_at(bundles_from(before, 0, 0), index as int) {
                if entries[index as int] is ToolCall {
                    let i = choose|i: int| holds(bundles_from(before, 0, 0), index as int, i);
                    assert(holds(bundles_from(before, 0, 0), index as int, i));
                    bundles_are_runs(before, 0);
                    assert forall|j: int| bundle.start <= j < bundle.end implies call_id(
                        #[trigger] before[j],
                    ) == call_id(entries[j]) by {}
                    same_ids_have_same_first(before, entries, bundle.start, bundle.end);
                }
            }
        },
        BundleRecomputeHint::EntriesRemoved { range } => {
            removal_recompute_is_complete(before, range.start, range.end);
            assert(BundleRecomputeHint::EntriesRemoved { range: range.start..range.end } == change);
        },
    }
}

/// Entries whose tool calls go by the same identifiers have the same first tool call.
proof fn same_ids_have_same_first(
    a: Seq<AgentThreadEntry>,
    b: Seq<AgentThreadEntry>,
    start: int,
    end: int,
)
    requires
        forall|i: int| start <= i < end ==> call_id(#[trigger] a[i]) == call_id(b[i]),
    ensures
        first_call(a, start, end) == first_call(b, start, end),
    decreases end - start,
{
    if start < end {
        same_ids_have_same_first(a, b, start, end - 1);
        assert(call_id(a[end - 1]) == call_id(b[end - 1]));
    }
}

/// Where only the entry at `index` differs, sums differ by as much as its weight does.
proof fn total_differs(
    a: Seq<AgentThreadEntry>,
    b: Seq<AgentThreadEntry>,
    index: int,
    start: int,
    end: int,
    weight: spec_fn(AgentThreadEntry) -> nat,
)
    requires
        start <= index < end,
        forall|i: int| start <= i < end && i != index ==> #[trigger] a[i] == b[i],
    ensures
        total(a, start, end, weight) - total(b, start, end, weight) == weight(a[index]) - weight(
            b[index],
        ),
    decreases end - start,
{
    if index < end - 1 {
        total_differs(a, b, index, start, end - 1, weight);
        assert(a[end - 1] == b[end - 1]);
    } else {
        assert forall|i: int| start <= i < end - 1 implies weight(#[trigger] a[i]) == weight(
            b[i + 0],
        ) by {}
        total_agrees(a, b, 0, start, end - 1, weight);
    }
}

/// If a bundle is described the same after one of its entries has become a tool call, that entry
/// was a tool call that counts for the same.
proof fn same_description_means_same(
    old_entries: Seq<AgentThreadEntry>,
    new_entries: Seq<AgentThreadEntry>,
    index: int,
    bundle: BundleView,
)
    requires
        bundle.start <= index < bundle.end,
        forall|i: int|
            bundle.start <= i < bundle.end && i != index ==> #[trigger] old_entries[i]
                == new_entries[i],
        new_entries[index] is ToolCall,
        bundle == describe(old_entries, bundle.start, bundle.end, 0),
        bundle == describe(new_entries, bundle.start, bundle.end, 0),
    ensures
        same_in_bundle(old_entries, new_entries, index, bundle),
{
    let (start, end) = (bundle.start, bundle.end);
    total_differs(old_entries, new_entries, index, start, end, call_weight());
    assert(old_entries[index] is ToolCall);
    if let AgentThreadEntry::ToolCall(after) = new_entries[index] {
        kinds_and_sort_keys_correspond(after.kind);
        let key = choose|key: int|
            0 <= key < TOOL_KIND_COUNT && kinds_in_order()[key] == after.kind;
        total_differs(old_entries, new_entries, index, start, end, kind_weight(after.kind));
        assert(describe(old_entries, start, end, 0).kinds[key] == describe(
            new_entries,
            start,
            end,
            0,
        ).kinds[key]);
        assert(kind_weight(after.kind)(old_entries[index]) == 1);
    }
}

/// Where the run of `a` that begins at `start` ends before `index`, up to which `a` and `b` agree,
/// so does that of `b`.
proof fn run_end_before(a: Seq<AgentThreadEntry>, b: Seq<AgentThreadEntry>, index: int, start: int)
    requires
        a.len() == b.len(),
        0 <= start < index < a.len(),
        forall|i: int| 0 <= i < index ==> #[trigger] a[i] == b[i],
        run_end(a, start) < index,
    ensures
        run_end(a, start) == run_end(b, start),
    decreases index - start,
{
    assert(a[start] == b[start]);
    if eligible(a[start]) && !terminating(a[start]) {
        run_end_bounds(a, start + 1);
        run_end_before(a, b, index, start + 1);
    }
}

/// Entries that agree from `start` on have the same bundles from there on.
proof fn equal_tails_have_equal_bundles(
    a: Seq<AgentThreadEntry>,
    b: Seq<AgentThreadEntry>,
    start: int,
)
    requires
        a.len() == b.len(),
        0 <= start <= a.len(),
        forall|i: int| start <= i < a.len() ==> #[trigger] a[i] == b[i],
    ensures
        bundles_from(a, start, 0) == bundles_from(b, start, 0),
{
    bundles_move(a, start, 0);
    bundles_move(b, start, 0);
    assert(a.skip(start) =~= b.skip(start));
}

/// If the entry at `index` belongs to no bundle, stands right behind none, and is not eligible
/// after its update, the update changes no bundle.
proof fn kept_outside(
    old_entries: Seq<AgentThreadEntry>,
    new_entries: Seq<AgentThreadEntry>,
    index: int,
    start: int,
)
    requires
        old_entries.len() == new_entries.len(),
        0 <= index < old_entries.len(),
        0 <= start <= old_entries.len(),
        forall|i: int|
            0 <= i < old_entries.len() && i != index ==> #[trigger] old_entries[i]
                == new_entries[i],
        !eligible(new_entries[index]),
        forall|i: int|
            0 <= i < bundles_from(old_entries, start, 0).len() ==> {
                let bundle = #[trigger] bundles_from(old_entries, start, 0)[i];
                !(bundle.start <= index <= bundle.end)
            },
    ensures
        bundles_from(old_entries, start, 0) == bundles_from(new_entries, start, 0),
    decreases old_entries.len() - start,
{
    let all = bundles_from(old_entries, start, 0);
    if start > index {
        equal_tails_have_equal_bundles(old_entries, new_entries, start);
    } else {
        run_end_bounds(old_entries, start);
        let end = run_end(old_entries, start);
        if end > start + 1 {
            assert(all[0] == describe(old_entries, start, end, 0));
            assert(end < index);
            run_end_before(old_entries, new_entries, index, start);
            let rest = bundles_from(old_entries, end, 0);
            assert forall|i: int| 0 <= i < rest.len() implies !((#[trigger] rest[i]).start <= index
                <= rest[i].end) by {
                assert(rest[i] == all[i + 1]);
            }
            kept_outside(old_entries, new_entries, index, end);
            describe_agrees(old_entries, new_entries, 0, start, end, 0);
        } else {
            if start < index {
                assert(old_entries[start] == new_entries[start]);
                if end < index {
                    run_end_before(old_entries, new_entries, index, start);
                } else if !terminating(new_entries[start]) {
                    assert(run_end(new_entries, index) == index);
                }
            }
            kept_outside(old_entries, new_entries, index, start + 1);
        }
    }
}

/// Whether two entries play the same part in runs and count for the same.
spec fn alike(a: AgentThreadEntry, b: AgentThreadEntry) -> bool {
    ||| a == b
    ||| {
        &&& a matches AgentThreadEntry::ToolCall(before)
        &&& b matches AgentThreadEntry::ToolCall(after)
        &&& before.kind == after.kind
        &&& eligible(a) == eligible(b)
    }
}

proof fn run_end_alike(a: Seq<AgentThreadEntry>, b: Seq<AgentThreadEntry>, start: int)
    requires
        a.len() == b.len(),
        0 <= start <= a.len(),
        forall|i: int| 0 <= i < a.len() ==> alike(#[trigger] a[i], b[i]),
    ensures
        run_end(a, start) == run_end(b, start),
    decreases a.len() - start,
{
    if start < a.len() {
        assert(alike(a[start], b[start]));
        run_end_alike(a, b, start + 1);
    }
}

/// If the entry at `index` plays the same part as before and `bundle`, the only one that can hold
/// it, keeps its first tool call, the update changes no bundle.
proof fn kept_inside(
    old_entries: Seq<AgentThreadEntry>,
    new_entries: Seq<AgentThreadEntry>,
    index: int,
    bundle: BundleView,
    start: int,
)
    requires
        old_entries.len() == new_entries.len(),
        0 <= index < old_entries.len(),
        0 <= start <= old_entries.len(),
        forall|i: int|
            0 <= i < old_entries.len() && i != index ==> #[trigger] old_entries[i]
                == new_entries[i],
        alike(old_entries[index], new_entries[index]),
        first_call(old_entries, bundle.start, bundle.end) == first_call(
            new_entries,
            bundle.start,
            bundle.end,
        ),
        forall|i: int|
            0 <= i < bundles_from(old_entries, start, 0).len() ==> {
                let other = #[trigger] bundles_from(old_entries, start, 0)[i];
                other.start <= index < other.end ==> other == bundle
            },
    ensures
        bundles_from(old_entries, start, 0) == bundles_from(new_entries, start, 0),
    decreases old_entries.len() - start,
{
    assert forall|i: int| 0 <= i < old_entries.len() implies alike(
        #[trigger] old_entries[i],
        new_entries[i],
    ) by {}
    if start < old_entries.len() {
        run_end_alike(old_entries, new_entries, start);
        run_end_bounds(old_entries, start);
        let end = run_end(old_entries, start);
        if end <= start + 1 {
            assert(bundles_from(old_entries, start, 0) == bundles_from(old_entries, start + 1, 0));
            kept_inside(old_entries, new_entries, index, bundle, start + 1);
        } else {
            let all = bundles_from(old_entries, start, 0);
            let rest = bundles_from(old_entries, end, 0);
            assert(all[0] == describe(old_entries, start, end, 0));
            assert forall|i: int|
                0 <= i < rest.len() && (#[trigger] rest[i]).start <= index
                    < rest[i].end implies rest[i] == bundle by {
                assert(rest[i] == all[i + 1]);
            }
            kept_inside(old_entries, new_entries, index, bundle, end);
            if start <= index < end {
                alike_described(old_entries, new_entries, start, end);
            } else {
                if end < old_entries.len() {
                    assert(alike(old_entries[end], new_entries[end]));
                }
                describe_agrees(old_entries, new_entries, 0, start, end, 0);
            }
        }
    }
}

/// Entries that count for the same, with the same first tool call, are described the same.
proof fn alike_described(a: Seq<AgentThreadEntry>, b: Seq<AgentThreadEntry>, start: int, end: int)
    requires
        a.len() == b.len(),
        0 <= start <= end <= a.len(),
        forall|i: int| 0 <= i < a.len() ==> alike(#[trigger] a[i], b[i]),
        first_call(a, start, end) == first_call(b, start, end),
    ensures
        describe(a, start, end, 0) == describe(b, start, end, 0),
{
    if end < a.len() {
        assert(alike(a[end], b[end]));
    }
    total_agrees(a, b, 0, start, end, call_weight());
    total_agrees(a, b, 0, start, end, thought_weight());
    assert forall|key: int| 0 <= key < TOOL_KIND_COUNT implies #[trigger] total(
        a,
        start,
        end,
        kind_weight(kinds_in_order()[key]),
    ) == total(b, start, end, kind_weight(kinds_in_order()[key])) by {
        total_agrees(a, b, 0, start, end, kind_weight(kinds_in_order()[key]));
    }
    assert(describe(a, start, end, 0).kinds =~= describe(b, start, end, 0).kinds);
}

/// Whether a bundle holds entry `ix`.
pub open spec fn covers(bundle: ToolCallBundle, ix: int) -> bool {
    bundle.start_index <= ix < bundle.end_index
}

/// Looking an entry up finds the bundle that holds it, and nothing if there is none.
pub proof fn lookup_finds_the_bundle(
    bundles: &[ToolCallBundle],
    entry_ix: usize,
    found: Option<&ToolCallBundle>,
)
    requires
        ordered(views(bundles@)),
        call_ensures(get_bundle_for_entry, (bundles, entry_ix), found),
    ensures
        found matches Some(bundle) ==> covers(*bundle, entry_ix as int) && bundles@.contains(*bundle),
        found is None ==> forall|i: int|
            0 <= i < bundles@.len() ==> !covers(#[trigger] bundles@[i], entry_ix as int),
{
    let all = views(bundles@);
    ordered_is_sorted(all);
    assert forall|i: int| 0 <= i < bundles@.len() implies (#[trigger] bundles@[i])@ == all[i] by {}
    if found is None {
        assert forall|i: int| 0 <= i < bundles@.len() implies !covers(
            #[trigger] bundles@[i],
            entry_ix as int,
        ) by {
            if covers(bundles@[i], entry_ix as int) {
                assert(holds(all, entry_ix as int, i));
            }
        }
    } else {
        let i = choose|i: int|
            #![trigger bundles@[i]]
            last_by_start(all, entry_ix as int, i) && *found->0 == bundles@[i] && entry_ix
                < found->0.end_index;
        assert(bundles@[i] == *found->0);
        assert(all[i].start <= entry_ix);
    }
}

/// Where a change is felt first: the bundle that ends right before the changed entry or holds it, or
/// else the entry itself; `from` is that place, or one before it with eligible entries in between.
pub open spec fn reaches(
    bundles: Seq<ToolCallBundle>,
    entries: Seq<AgentThreadEntry>,
    index: int,
    from: int,
) -> bool {
    &&& 0 <= from <= entries.len()
    &&& from == 0 || !groupable(entries[from - 1])
    &&& forall|i: int|
        0 <= i < bundles.len() && (#[trigger] bundles[i]).end_index == index ==> all_groupable(
            entries,
            from,
            bundles[i].start_index as int,
        )
    &&& (forall|i: int| 0 <= i < bundles.len() ==> (#[trigger] bundles[i]).end_index != index)
        ==> forall|i: int|
        0 <= i < bundles.len() && covers(#[trigger] bundles[i], index) ==> all_groupable(
            entries,
            from,
            bundles[i].start_index as int,
        )
    &&& (forall|i: int|
        0 <= i < bundles.len() ==> (#[trigger] bundles[i]).end_index != index && !covers(
            bundles[i],
            index,
        )) ==> all_groupable(entries, from, index)
}

/// Whether all entries from `from` up to `to` can stand in a run.
pub open spec fn all_groupable(entries: Seq<AgentThreadEntry>, from: int, to: int) -> bool {
    &&& from <= to
    &&& forall|i: int| from <= i < to ==> groupable(#[trigger] entries[i])
}

/// A change affects the entries from the first place on where it is felt, over all eligible entries
/// right before.
pub proof fn affected_start_is_where_the_change_reaches(
    bundles: &[ToolCallBundle],
    entries: &[AgentThreadEntry],
    hint: BundleRecomputeHint,
    start: usize,
)
    requires
        ordered(views(bundles@)),
        hint_in_bounds(views(bundles@), entries@, Some(hint)),
        call_ensures(affected_start, (bundles, entries, &hint), start),
    ensures
        hint matches BundleRecomputeHint::NewEntry(index) ==> reaches(
            bundles@,
            entries@,
            index as int,
            start as int,
        ),
        hint matches BundleRecomputeHint::EntryUpdated(index) ==> reaches(
            bundles@,
            entries@,
            index as int,
            start as int,
        ),
        hint matches BundleRecomputeHint::EntriesRemoved { range } ==> reaches(
            bundles@,
            entries@,
            range.start as int,
            start as int,
        ),
{
    let index: int = match hint {
        BundleRecomputeHint::NewEntry(index) => index as int,
        BundleRecomputeHint::EntryUpdated(index) => index as int,
        BundleRecomputeHint::EntriesRemoved { range } => range.start as int,
    };
    touched_is_first_felt(bundles@, index);
    touched_start_bounds(views(bundles@), index);
    let touched = touched_start(views(bundles@), index);
    walked_back_over_groupable(entries@, touched);
}

/// Walking back leads over entries that can stand in a run, and stops behind one that cannot.
proof fn walked_back_over_groupable(entries: Seq<AgentThreadEntry>, start: int)
    requires
        0 <= start,
    ensures
        0 <= walked_back(entries, start),
        all_groupable(entries, walked_back(entries, start), start),
        walked_back(entries, start) == 0 || !groupable(entries[walked_back(entries, start) - 1]),
    decreases start,
{
    if start > 0 {
        eligibility_is_told_by_the_fields(entries[start - 1]);
        if eligible(entries[start - 1]) {
            walked_back_over_groupable(entries, start - 1);
        }
    }
}

/// Where the bundles around an entry begin.
proof fn touched_is_first_felt(bundles: Seq<ToolCallBundle>, index: int)
    requires
        ordered(views(bundles)),
        0 <= index,
    ensures
        forall|i: int|
            0 <= i < bundles.len() && (#[trigger] bundles[i]).end_index == index ==> touched_start(
                views(bundles),
                index,
            ) == bundles[i].start_index,
        (forall|i: int| 0 <= i < bundles.len() ==> (#[trigger] bundles[i]).end_index != index)
            ==> forall|i: int|
            0 <= i < bundles.len() && covers(#[trigger] bundles[i], index) ==> touched_start(
                views(bundles),
                index,
            ) == bundles[i].start_index,
        (forall|i: int|
            0 <= i < bundles.len() ==> (#[trigger] bundles[i]).end_index != index && !covers(
                bundles[i],
                index,
            )) ==> touched_start(views(bundles), index) == index,
{
    let all = views(bundles);
    let before: int = index - 1;
    assert forall|i: int| 0 <= i < bundles.len() implies (#[trigger] bundles[i])@ == all[i] by {}
    assert forall|i: int|
        0 <= i < bundles.len() && (#[trigger] bundles[i]).end_index == index implies touched_start(
        all,
        index,
    ) == bundles[i].start_index by {
        assert(all[i].start < all[i].end - 1);
        assert(holds(all, before, i));
        bundle_at_is(all, before, i);
    }
    if forall|i: int| 0 <= i < bundles.len() ==> (#[trigger] bundles[i]).end_index != index {
        if bundle_at(all, before) is Some {
            let i = choose|i: int| holds(all, before, i);
            assert(holds(all, before, i));
            assert(bundles[i].end_index != index);
        }
        assert forall|i: int| 0 <= i < bundles.len() && covers(
            #[trigger] bundles[i],
            index,
        ) implies touched_start(all, index) == bundles[i].start_index by {
            assert(holds(all, index, i));
            bundle_at_is(all, index, i);
        }
        if bundle_at(all, index) is Some {
            let i = choose|i: int| holds(all, index, i);
            assert(holds(all, index, i));
            assert(covers(bundles[i], index));
        }
    }
}

/// Bundles are kept as they are exactly for the update of a tool call that does not stand right
/// behind a bundle and that can stand in a run if and only if a bundle holds it already.
pub proof fn bundles_are_kept_for_unchanged_calls(
    bundles: &[ToolCallBundle],
    entries: &[AgentThreadEntry],
    hint: Option<BundleRecomputeHint>,
    keeps: bool,
)
    requires
        ordered(views(bundles@)),
        call_ensures(change_keeps_bundles, (bundles, entries, &hint), keeps),
    ensures
        keeps <==> (hint matches Some(BundleRecomputeHint::EntryUpdated(index)) && index
            < entries@.len() && entries@[index as int] is ToolCall && (forall|i: int|
            0 <= i < bundles@.len() ==> (#[trigger] bundles@[i]).end_index != index) && (groupable(
            entries@[index as int],
        ) <==> exists|i: int| 0 <= i < bundles@.len() && covers(#[trigger] bundles@[i], index as int))),
{
    let all = views(bundles@);
    assert forall|i: int| 0 <= i < bundles@.len() implies (#[trigger] bundles@[i])@ == all[i] by {}
    if let Some(BundleRecomputeHint::EntryUpdated(index)) = hint {
        if index < entries@.len() {
            eligibility_is_told_by_the_fields(entries@[index as int]);
            if bundle_at(all, index as int) is Some {
                let i = choose|i: int| holds(all, index as int, i);
                assert(holds(all, index as int, i));
                assert(covers(bundles@[i], index as int));
            }
            if exists|i: int|
                0 <= i < bundles@.len() && covers(#[trigger] bundles@[i], index as int) {
                let i = choose|i: int|
                    0 <= i < bundles@.len() && covers(#[trigger] bundles@[i], index as int);
                assert(holds(all, index as int, i));
            }
            if some_end_at(all, index as int) {
                let i = choose|i: int| 0 <= i < all.len() && (#[trigger] all[i]).end == index;
                assert(bundles@[i].end_index == index);
            }
            assert forall|i: int| 0 <= i < bundles@.len() && (#[trigger] bundles@[i]).end_index
                == index implies some_end_at(all, index as int) by {
                assert(all[i].end == index);
            }
        }
    }
}

/// A hint is in bounds exactly if it speaks of an entry up to the end of the thread, or of one in or
/// right behind a bundle that begins there.
pub proof fn hints_are_checked(
    bundles: &[ToolCallBundle],
    entries: &[AgentThreadEntry],
    hint: Option<BundleRecomputeHint>,
    in_bounds: bool,
)
    requires
        ordered(views(bundles@)),
        call_ensures(check_hint, (bundles, entries, &hint), in_bounds),
    ensures
        hint is None ==> in_bounds,
        hint matches Some(BundleRecomputeHint::NewEntry(index)) ==> in_bounds == (index
            <= entries@.len() || begins_within(bundles@, index as int, entries@.len() as int)),
        hint matches Some(BundleRecomputeHint::EntryUpdated(index)) ==> in_bounds == (index
            <= entries@.len() || begins_within(bundles@, index as int, entries@.len() as int)),
        hint matches Some(BundleRecomputeHint::EntriesRemoved { range }) ==> in_bounds == (
        range.start <= entries@.len()),
{
    match hint {
        Some(BundleRecomputeHint::NewEntry(index))
        | Some(BundleRecomputeHint::EntryUpdated(index)) => {
            touched_begins_within(bundles@, index as int, entries@.len() as int);
        },
        _ => {},
    }
}

/// Whether a bundle that holds entry `ix` or ends right before it begins by `count`.
pub open spec fn begins_within(bundles: Seq<ToolCallBundle>, ix: int, count: int) -> bool {
    exists|i: int|
        0 <= i < bundles.len() && (#[trigger] bundles[i]).start_index <= ix <= bundles[i].end_index
            && bundles[i].start_index <= count
}

proof fn touched_begins_within(bundles: Seq<ToolCallBundle>, ix: int, count: int)
    requires
        ordered(views(bundles)),
        0 <= ix,
    ensures
        ix > count ==> (touched_start(views(bundles), ix) <= count <==> begins_within(
            bundles,
            ix,
            count,
        )),
{
    let all = views(bundles);
    touched_is_first_felt(bundles, ix);
    assert forall|i: int| 0 <= i < bundles.len() implies (#[trigger] bundles[i])@ == all[i] by {}
    if ix > count {
        if begins_within(bundles, ix, count) {
            let i = choose|i: int|
                0 <= i < bundles.len() && (#[trigger] bundles[i]).start_index <= ix
                    <= bundles[i].end_index && bundles[i].start_index <= count;
            if bundles[i].end_index != ix {
                assert(covers(bundles[i], ix));
                if exists|j: int| 0 <= j < bundles.len() && (#[trigger] bundles[j]).end_index == ix {
                    let j = choose|j: int|
                        0 <= j < bundles.len() && (#[trigger] bundles[j]).end_index == ix;
                    if i < j {
                        assert(all[i].end <= all[j].start);
                    } else if j < i {
                        assert(all[j].end <= all[i].start);
                    }
                }
            }
        }
        if touched_start(all, ix) <= count {
            if exists|j: int| 0 <= j < bundles.len() && (#[trigger] bundles[j]).end_index == ix {
                let j = choose|j: int|
                    0 <= j < bundles.len() && (#[trigger] bundles[j]).end_index == ix;
                assert(all[j].start < all[j].end);
                assert(begins_within(bundles, ix, count));
            } else {
                let j = choose|j: int| 0 <= j < bundles.len() && covers(#[trigger] bundles[j], ix);
                assert(bundles[j].start_index <= ix <= bundles[j].end_index);
            }
        }
    }
}

/// After a change that does not keep them, the bundles are those that end by the affected entry, and
/// behind them those computed of the entries from there on.
pub proof fn refreshed_bundles_are_kept_and_computed(
    bundles: &[ToolCallBundle],
    entries: &[AgentThreadEntry],
    change: BundleRecomputeHint,
    start: usize,
    tail: &[AgentThreadEntry],
    suffix: Vec<ToolCallBundle>,
    fresh: Vec<ToolCallBundle>,
)
    requires
        ordered(views(bundles@)),
        tallies_fit(entries@),
        hint_in_bounds(views(bundles@), entries@, Some(change)),
        call_ensures(change_keeps_bundles, (bundles, entries, &Some(change)), false),
        call_ensures(affected_start, (bundles, entries, &change), start),
        tail@ == entries@.skip(start as int),
        call_ensures(compute_tool_call_bundles, (tail, start), suffix),
        call_ensures(refresh_bundles, (bundles, entries, &Some(change)), fresh),
    ensures
        exists|kept: int|
            {
                &&& 0 <= kept <= bundles@.len()
                &&& forall|i: int|
                    0 <= i < kept ==> (#[trigger] bundles@[i]).end_index <= start
                &&& kept < bundles@.len() ==> start < bundles@[kept].end_index
                &&& views(fresh@) == #[trigger] views(bundles@).take(kept) + views(suffix@)
            },
{
    let all = views(bundles@);
    let kept = first_beyond(all, start as int, 0);
    ends_by(all, start as int, 0);
    beyond_is_beyond(all, start as int, 0);
    assert forall|i: int| 0 <= i < bundles@.len() implies (#[trigger] bundles@[i])@ == all[i] by {}
    bundles_move(entries@, start as int, 0);
    assert(views(fresh@) == all.take(kept) + views(suffix@));
}

/// Whether a bundle ends right before an entry is told.
pub proof fn ends_are_told(bundles: &[ToolCallBundle], ix: usize, ends: bool)
    requires
        ordered(views(bundles@)),
        call_ensures(ends_at, (bundles, ix), ends),
    ensures
        ends <==> exists|i: int| 0 <= i < bundles@.len() && (#[trigger] bundles@[i]).end_index == ix,
{
    let all = views(bundles@);
    if some_end_at(all, ix as int) {
        let i = choose|i: int| 0 <= i < all.len() && (#[trigger] all[i]).end == ix;
        assert(bundles@[i].end_index == ix);
    }
    if exists|i: int| 0 <= i < bundles@.len() && (#[trigger] bundles@[i]).end_index == ix {
        let i = choose|i: int| 0 <= i < bundles@.len() && (#[trigger] bundles@[i]).end_index == ix;
        assert(all[i].end == ix);
    }
}

} // verus!
