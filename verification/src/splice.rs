//! How the bundles of entries change when the entries are cut, moved or replaced.

use vstd::prelude::*;

use crate::bundle::{
    bundles_from, call_weight, describe, eligible, first_call, kind_weight, run_end,
    run_end_bounds, run_fits, tallies_fit, terminating, thought_weight, thoughts_at, total,
    BundleView,
};
use crate::bundle_laws::bundles_are_ordered;
use crate::thread::{AgentThreadEntry, ToolKind};
use crate::tool_kind::{kinds_in_order, TOOL_KIND_COUNT};

verus! {

/// Where the first of the bundles from `from` on stands that ends beyond `at`.
pub open spec fn first_beyond(bundles: Seq<BundleView>, at: int, from: int) -> int
    decreases bundles.len() - from,
{
    if from >= bundles.len() || bundles[from].end > at {
        from
    } else {
        first_beyond(bundles, at, from + 1)
    }
}

/// The bundles that lie entirely before `at`.
pub open spec fn ending_by(bundles: Seq<BundleView>, at: int) -> Seq<BundleView> {
    bundles.take(first_beyond(bundles, at, 0))
}

/// Sums over entries that agree, `by` places apart, are equal.
pub proof fn total_agrees(
    a: Seq<AgentThreadEntry>,
    b: Seq<AgentThreadEntry>,
    by: int,
    start: int,
    end: int,
    weight: spec_fn(AgentThreadEntry) -> nat,
)
    requires
        forall|i: int| start <= i < end ==> weight(#[trigger] a[i]) == weight(b[i + by]),
    ensures
        total(a, start, end, weight) == total(b, start + by, end + by, weight),
    decreases end - start,
{
    if start < end {
        total_agrees(a, b, by, start, end - 1, weight);
        assert(weight(a[end - 1]) == weight(b[end - 1 + by]));
    }
}

/// The first tool calls of entries that agree, `by` places apart, are equal.
proof fn first_call_agrees(
    a: Seq<AgentThreadEntry>,
    b: Seq<AgentThreadEntry>,
    by: int,
    start: int,
    end: int,
)
    requires
        forall|i: int| start <= i < end ==> #[trigger] a[i] == b[i + by],
    ensures
        first_call(a, start, end) == first_call(b, start + by, end + by),
    decreases end - start,
{
    if start < end {
        first_call_agrees(a, b, by, start, end - 1);
        assert(a[end - 1] == b[end - 1 + by]);
    }
}

/// A run of entries that agree, `by` places apart, has the same description.
pub proof fn describe_agrees(
    a: Seq<AgentThreadEntry>,
    b: Seq<AgentThreadEntry>,
    by: int,
    start: int,
    end: int,
    offset: int,
)
    requires
        forall|i: int| start <= i < end ==> #[trigger] a[i] == b[i + by],
        thoughts_at(a, end) == thoughts_at(b, end + by),
    ensures
        describe(a, start, end, offset + by) == describe(b, start + by, end + by, offset),
{
    total_agrees(a, b, by, start, end, call_weight());
    total_agrees(a, b, by, start, end, thought_weight());
    first_call_agrees(a, b, by, start, end);
    assert forall|key: int| 0 <= key < TOOL_KIND_COUNT implies #[trigger] total(
        a,
        start,
        end,
        kind_weight(kinds_in_order()[key]),
    ) == total(b, start + by, end + by, kind_weight(kinds_in_order()[key])) by {
        total_agrees(a, b, by, start, end, kind_weight(kinds_in_order()[key]));
    }
    assert(describe(a, start, end, offset + by).kinds =~= describe(
        b,
        start + by,
        end + by,
        offset,
    ).kinds);
}

/// Dropping the entries before `at` moves the ends of runs by as much.
proof fn run_end_moves(entries: Seq<AgentThreadEntry>, at: int, start: int)
    requires
        0 <= at <= entries.len(),
        0 <= start <= entries.len() - at,
    ensures
        run_end(entries.skip(at), start) + at == run_end(entries, start + at),
    decreases entries.len() - at - start,
{
    if start < entries.len() - at {
        assert(entries.skip(at)[start] == entries[start + at]);
        run_end_moves(entries, at, start + 1);
    }
}

/// The bundles of the entries from `at` on, taken as entries of their own, are those from `at` on.
pub proof fn bundles_move(entries: Seq<AgentThreadEntry>, at: int, start: int)
    requires
        0 <= at <= entries.len(),
        0 <= start <= entries.len() - at,
    ensures
        bundles_from(entries.skip(at), start, at) == bundles_from(entries, start + at, 0),
    decreases entries.len() - at - start,
{
    let tail = entries.skip(at);
    if start < tail.len() {
        run_end_moves(entries, at, start);
        run_end_bounds(tail, start);
        let end = run_end(tail, start);
        if end <= start + 1 {
            bundles_move(entries, at, start + 1);
        } else {
            bundles_move(entries, at, end);
            assert forall|i: int| start <= i < end implies #[trigger] tail[i] == entries[i + at] by {}
            describe_agrees(tail, entries, at, start, end, 0);
        }
    }
}

/// If the counts of the bundles of entries fit, so do those of the bundles from `at` on.
pub proof fn tallies_of_tail_fit(entries: Seq<AgentThreadEntry>, at: int)
    requires
        0 <= at <= entries.len(),
        tallies_fit(entries),
    ensures
        tallies_fit(entries.skip(at)),
{
    let tail = entries.skip(at);
    assert forall|start: int| 0 <= start < tail.len() implies run_fits(
        tail,
        start,
        #[trigger] run_end(tail, start),
    ) by {
        run_end_moves(entries, at, start);
        run_end_bounds(tail, start);
        let end = run_end(tail, start);
        assert(run_fits(entries, start + at, run_end(entries, start + at)));
        assert forall|i: int| start <= i < end implies #[trigger] tail[i] == entries[i + at] by {}
        total_agrees(tail, entries, at, start, end, thought_weight());
        assert forall|kind: ToolKind| #[trigger]
            total(tail, start, end, kind_weight(kind)) <= u32::MAX by {
            total_agrees(tail, entries, at, start, end, kind_weight(kind));
            assert(total(entries, start + at, end + at, kind_weight(kind)) <= u32::MAX);
        }
    }
}

proof fn first_beyond_moves(first: BundleView, rest: Seq<BundleView>, at: int, from: int)
    requires
        0 <= from <= rest.len(),
    ensures
        first_beyond(seq![first] + rest, at, from + 1) == first_beyond(rest, at, from) + 1,
        from <= first_beyond(rest, at, from) <= rest.len(),
    decreases rest.len() - from,
{
    if from < rest.len() {
        assert((seq![first] + rest)[from + 1] == rest[from]);
        if rest[from].end <= at {
            first_beyond_moves(first, rest, at, from + 1);
        }
    }
}

/// One more bundle in front is kept, with those kept of the others, if it ends by `at`; else
/// nothing is kept.
proof fn ending_by_front(first: BundleView, rest: Seq<BundleView>, at: int)
    ensures
        ending_by(seq![first] + rest, at) == (if first.end <= at {
            seq![first] + ending_by(rest, at)
        } else {
            Seq::empty()
        }),
{
    first_beyond_moves(first, rest, at, 0);
    let all = seq![first] + rest;
    assert(all[0] == first);
    if first.end <= at {
        let n = first_beyond(rest, at, 0);
        assert(first_beyond(all, at, 0) == n + 1);
        assert(all.take(n + 1) =~= seq![first] + rest.take(n));
    }
}

/// A run that begins before an entry that is not eligible ends there or before, at the same place in
/// `a` and in `b`, where the two agree up to that entry.
proof fn run_ends_before_ineligible(
    a: Seq<AgentThreadEntry>,
    b: Seq<AgentThreadEntry>,
    at: int,
    start: int,
)
    requires
        0 <= start < at,
        at <= a.len(),
        at <= b.len(),
        forall|i: int| 0 <= i < at ==> #[trigger] a[i] == b[i],
        !eligible(b[at - 1]),
    ensures
        start <= run_end(a, start) == run_end(b, start) < at,
    decreases at - start,
{
    assert(a[start] == b[start]);
    if eligible(a[start]) && !terminating(a[start]) {
        run_ends_before_ineligible(a, b, at, start + 1);
    }
}

/// Behind an entry that is not eligible, or at the very start, the bundles of `new_entries` are those
/// of `old_entries` that end by there, followed by those that `new_entries` has from there on, where
/// the two agree up to there.
pub proof fn bundles_splice(
    old_entries: Seq<AgentThreadEntry>,
    new_entries: Seq<AgentThreadEntry>,
    at: int,
)
    requires
        0 <= at <= old_entries.len(),
        at <= new_entries.len(),
        forall|i: int| 0 <= i < at ==> #[trigger] old_entries[i] == new_entries[i],
        at == 0 || !eligible(new_entries[at - 1]),
    ensures
        ending_by(bundles_from(old_entries, 0, 0), at) + bundles_from(new_entries, at, 0)
            == bundles_from(new_entries, 0, 0),
{
    bundles_splice_from(old_entries, new_entries, at, 0);
}

proof fn bundles_splice_from(
    old_entries: Seq<AgentThreadEntry>,
    new_entries: Seq<AgentThreadEntry>,
    at: int,
    start: int,
)
    requires
        0 <= start <= at <= old_entries.len(),
        at <= new_entries.len(),
        forall|i: int| 0 <= i < at ==> #[trigger] old_entries[i] == new_entries[i],
        at == 0 || !eligible(new_entries[at - 1]),
    ensures
        ending_by(bundles_from(old_entries, start, 0), at) + bundles_from(new_entries, at, 0)
            == bundles_from(new_entries, start, 0),
    decreases at - start,
{
    let old_bundles = bundles_from(old_entries, start, 0);
    let tail = bundles_from(new_entries, at, 0);
    if start == at {
        bundles_are_ordered(old_entries, at, 0);
        assert(ending_by(old_bundles, at) =~= Seq::empty());
        assert(Seq::<BundleView>::empty() + tail =~= tail);
    } else {
        run_ends_before_ineligible(old_entries, new_entries, at, start);
        let end = run_end(new_entries, start);
        if end <= start + 1 {
            bundles_splice_from(old_entries, new_entries, at, start + 1);
        } else {
            bundles_splice_from(old_entries, new_entries, at, end);
            let rest = bundles_from(old_entries, end, 0);
            assert(old_entries[end] == new_entries[end]);
            assert forall|i: int| start <= i < end implies #[trigger] old_entries[i]
                == new_entries[i + 0] by {}
            describe_agrees(old_entries, new_entries, 0, start, end, 0);
            let run = describe(old_entries, start, end, 0);
            ending_by_front(run, rest, at);
            assert(seq![run] + ending_by(rest, at) + tail =~= seq![run] + (ending_by(rest, at)
                + tail));
        }
    }
}

/// The bundles before the first one that ends beyond `at` end by `at`.
pub proof fn ends_by(bundles: Seq<BundleView>, at: int, from: int)
    requires
        0 <= from <= bundles.len(),
    ensures
        from <= first_beyond(bundles, at, from) <= bundles.len(),
        forall|i: int|
            from <= i < first_beyond(bundles, at, from) ==> (#[trigger] bundles[i]).end <= at,
    decreases bundles.len() - from,
{
    if from < bundles.len() && bundles[from].end <= at {
        ends_by(bundles, at, from + 1);
    }
}

/// The first bundle that ends beyond `at` ends beyond `at`.
pub proof fn beyond_is_beyond(bundles: Seq<BundleView>, at: int, from: int)
    requires
        0 <= from <= bundles.len(),
    ensures
        first_beyond(bundles, at, from) < bundles.len() ==> bundles[first_beyond(
            bundles,
            at,
            from,
        )].end > at,
    decreases bundles.len() - from,
{
    if from < bundles.len() && bundles[from].end <= at {
        beyond_is_beyond(bundles, at, from + 1);
    }
}

} // verus!
