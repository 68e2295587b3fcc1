//! Looking bundles up, and bringing them up to date after a change of the entries.

use vstd::prelude::*;

use crate::bundle::{
    bundles_from, compute_tool_call_bundles, eligible, is_entry_bundle_eligible, tallies_fit, views,
    BundleRecomputeHint, BundleView, ToolCallBundle,
};
use crate::bundle_laws::{bundles_are_ordered, ordered};
use crate::splice::{bundles_move, ending_by, ends_by, first_beyond, tallies_of_tail_fit};
use crate::thread::AgentThreadEntry;

verus! {

/// Whether no two bundles begin at the same entry and they are sorted by where they begin.
pub open spec fn sorted_by_start(bundles: Seq<BundleView>) -> bool {
    forall|i: int, j: int|
        0 <= i < j < bundles.len() ==> (#[trigger] bundles[i]).start < (#[trigger] bundles[j]).start
}

/// Whether the bundle at `i` is the last one that begins at entry `ix` or before.
pub open spec fn last_by_start(bundles: Seq<BundleView>, ix: int, i: int) -> bool {
    &&& 0 <= i < bundles.len()
    &&& bundles[i].start <= ix
    &&& i + 1 < bundles.len() ==> ix < bundles[i + 1].start
}

/// Whether the bundle at `i` holds entry `ix`.
pub open spec fn holds(bundles: Seq<BundleView>, ix: int, i: int) -> bool {
    0 <= i < bundles.len() && bundles[i].start <= ix < bundles[i].end
}

/// The bundle that holds entry `ix`.
pub open spec fn bundle_at(bundles: Seq<BundleView>, ix: int) -> Option<BundleView> {
    if exists|i: int| holds(bundles, ix, i) {
        Some(bundles[choose|i: int| holds(bundles, ix, i)])
    } else {
        None
    }
}

/// How many of the bundles begin at entry `ix` or before.
fn count_by_start(bundles: &[ToolCallBundle], ix: usize) -> (count: usize)
    requires
        sorted_by_start(views(bundles@)),
    ensures
        count <= bundles@.len(),
        forall|i: int| 0 <= i < count ==> (#[trigger] views(bundles@)[i]).start <= ix,
        forall|i: int| count <= i < bundles@.len() ==> ix < (#[trigger] views(bundles@)[i]).start,
{
    let mut low: usize = 0;
    let mut high: usize = bundles.len();
    while low < high
        invariant
            low <= high <= bundles@.len(),
            sorted_by_start(views(bundles@)),
            forall|i: int| 0 <= i < low ==> (#[trigger] views(bundles@)[i]).start <= ix,
            forall|i: int| high <= i < bundles@.len() ==> ix < (#[trigger] views(bundles@)[i]).start,
        decreases high - low,
    {
        let middle: usize = low + (high - low) / 2;
        assert(views(bundles@)[middle as int] == bundles@[middle as int]@);
        if bundles[middle].start_index <= ix {
            low = middle + 1;
        } else {
            high = middle;
        }
    }
    low
}

/// The bundle that an entry belongs to.
///
/// Of bundles that overlap, only the last one that begins at the entry or before is looked at.
pub fn get_bundle_for_entry(bundles: &[ToolCallBundle], entry_ix: usize) -> (found: Option<
    &ToolCallBundle,
>)
    requires
        sorted_by_start(views(bundles@)),
    ensures
        match found {
            Some(bundle) => exists|i: int|
                #![trigger bundles@[i]]
                last_by_start(views(bundles@), entry_ix as int, i) && *bundle == bundles@[i]
                    && entry_ix < bundle.end_index,
            None => forall|i: int|
                last_by_start(views(bundles@), entry_ix as int, i) ==> views(bundles@)[i].end
                    <= entry_ix,
        },
        ordered(views(bundles@)) ==> match found {
            Some(bundle) => bundle_at(views(bundles@), entry_ix as int) == Some(bundle@),
            None => bundle_at(views(bundles@), entry_ix as int) is None,
        },
{
    let count: usize = count_by_start(bundles, entry_ix);
    let ghost all = views(bundles@);
    if count == 0 {
        assert forall|i: int| !holds(all, entry_ix as int, i) by {}
        return None;
    }
    let bundle = &bundles[count - 1];
    assert(all[count - 1] == bundle@);
    assert(last_by_start(all, entry_ix as int, count - 1));
    proof {
        assert forall|i: int| last_by_start(all, entry_ix as int, i) implies i == count - 1 by {
            if i < count - 1 {
                assert(all[i + 1].start <= entry_ix);
            }
        }
        if ordered(all) {
            assert forall|i: int| holds(all, entry_ix as int, i) implies i == count - 1 by {
                if i < count - 1 {
                    assert(all[i].end <= all[count - 1].start);
                }
            }
            if entry_ix < bundle.end_index {
                assert(holds(all, entry_ix as int, count - 1));
            }
        }
    }
    if entry_ix < bundle.end_index {
        assert(*bundle == bundles@[count - 1]);
        Some(bundle)
    } else {
        None
    }
}

/// Whether some bundle ends right before entry `ix`.
pub open spec fn some_end_at(bundles: Seq<BundleView>, ix: int) -> bool {
    exists|i: int| 0 <= i < bundles.len() && (#[trigger] bundles[i]).end == ix
}

/// Whether a change leaves all bundles as they are: the update of a tool call whose eligibility is
/// the same as before, and which does not stand right behind a bundle.
pub open spec fn keeps_bundles(
    bundles: Seq<BundleView>,
    entries: Seq<AgentThreadEntry>,
    hint: Option<BundleRecomputeHint>,
) -> bool {
    hint matches Some(BundleRecomputeHint::EntryUpdated(index)) && {
        &&& index < entries.len()
        &&& entries[index as int] is ToolCall
        &&& !some_end_at(bundles, index as int)
        &&& (bundle_at(bundles, index as int) is Some) == eligible(entries[index as int])
    }
}

/// Where the bundle begins that holds entry `ix` or ends right before it; where there is none,
/// `ix` itself. Of two, the first one counts.
pub open spec fn touched_start(bundles: Seq<BundleView>, ix: int) -> int {
    match bundle_at(bundles, ix - 1) {
        Some(before) if before.end == ix => before.start,
        _ => match bundle_at(bundles, ix) {
            Some(around) => around.start,
            None => ix,
        },
    }
}

/// Where the eligible entries right before `start` begin.
pub open spec fn walked_back(entries: Seq<AgentThreadEntry>, start: int) -> int
    decreases start,
{
    if start > 0 && eligible(entries[start - 1]) {
        walked_back(entries, start - 1)
    } else {
        start
    }
}

/// The earliest entry whose bundle might be affected by a change: the start of the bundle that the
/// change touches, or of the eligible entries right before it.
pub open spec fn affected(
    bundles: Seq<BundleView>,
    entries: Seq<AgentThreadEntry>,
    hint: BundleRecomputeHint,
) -> int {
    match hint {
        BundleRecomputeHint::NewEntry(index) | BundleRecomputeHint::EntryUpdated(index) => {
            walked_back(entries, touched_start(bundles, index as int))
        },
        BundleRecomputeHint::EntriesRemoved { range } => {
            walked_back(entries, touched_start(bundles, range.start as int))
        },
    }
}

/// Whether a hint speaks of places that the entries or the bundles have.
pub open spec fn hint_in_bounds(
    bundles: Seq<BundleView>,
    entries: Seq<AgentThreadEntry>,
    hint: Option<BundleRecomputeHint>,
) -> bool {
    match hint {
        Some(BundleRecomputeHint::NewEntry(index)) => index <= entries.len() || touched_start(
            bundles,
            index as int,
        ) <= entries.len(),
        Some(BundleRecomputeHint::EntryUpdated(index)) => index <= entries.len() || touched_start(
            bundles,
            index as int,
        ) <= entries.len(),
        Some(BundleRecomputeHint::EntriesRemoved { range }) => range.start <= entries.len(),
        None => true,
    }
}

/// The bundles after a change: the same ones where the change keeps them all; else those that end
/// before the entry from which on they are computed anew, and the new ones.
pub open spec fn recomputed(
    bundles: Seq<BundleView>,
    entries: Seq<AgentThreadEntry>,
    hint: Option<BundleRecomputeHint>,
) -> Seq<BundleView> {
    if keeps_bundles(bundles, entries, hint) {
        bundles
    } else {
        match hint {
            Some(change) => {
                let at = affected(bundles, entries, change);
                ending_by(bundles, at) + bundles_from(entries, at, 0)
            },
            None => bundles_from(entries, 0, 0),
        }
    }
}

/// In bundles that follow one another, the only one that holds an entry is the one at that entry.
pub proof fn bundle_at_is(bundles: Seq<BundleView>, ix: int, i: int)
    requires
        ordered(bundles),
        holds(bundles, ix, i),
    ensures
        bundle_at(bundles, ix) == Some(bundles[i]),
{
    let j = choose|j: int| holds(bundles, ix, j);
    assert(holds(bundles, ix, j));
    if i < j {
        assert(bundles[i].end <= bundles[j].start);
    } else if j < i {
        assert(bundles[j].end <= bundles[i].start);
    }
}

/// Bundles that follow one another are sorted by where they begin.
pub proof fn ordered_is_sorted(bundles: Seq<BundleView>)
    requires
        ordered(bundles),
    ensures
        sorted_by_start(bundles),
{
    assert forall|i: int, j: int| 0 <= i < j < bundles.len() implies (#[trigger] bundles[i]).start
        < (#[trigger] bundles[j]).start by {
        assert(bundles[i].end <= bundles[j].start);
    }
}

/// Whether some bundle ends right before entry `ix`.
pub fn ends_at(bundles: &[ToolCallBundle], ix: usize) -> (ends: bool)
    requires
        ordered(views(bundles@)),
    ensures
        ends == some_end_at(views(bundles@), ix as int),
{
    let ghost all = views(bundles@);
    proof {
        ordered_is_sorted(all);
        if some_end_at(all, ix as int) {
            let i = choose|i: int| 0 <= i < all.len() && (#[trigger] all[i]).end == ix;
            bundle_at_is(all, ix - 1, i);
        }
    }
    if ix == 0 {
        return false;
    }
    match get_bundle_for_entry(bundles, ix - 1) {
        Some(bundle) => {
            proof {
                let last: int = ix - 1;
                let i = choose|i: int| holds(all, last, i);
                assert(all[i] == bundle@);
            }
            bundle.end_index == ix
        },
        None => false,
    }
}

/// Whether a change leaves all bundles as they are.
///
/// That is so for a tool call whose eligibility hasn't changed and that isn't at a bundle
/// boundary. Messages are always computed anew because their thought chunk count may change during
/// streaming without affecting eligibility.
pub fn change_keeps_bundles(
    bundles: &[ToolCallBundle],
    entries: &[AgentThreadEntry],
    hint: &Option<BundleRecomputeHint>,
) -> (keeps: bool)
    requires
        ordered(views(bundles@)),
    ensures
        keeps == keeps_bundles(views(bundles@), entries@, *hint),
{
    proof {
        ordered_is_sorted(views(bundles@));
    }
    if let Some(BundleRecomputeHint::EntryUpdated(index)) = hint {
        if *index < entries.len() {
            if let AgentThreadEntry::ToolCall(_) = &entries[*index] {
                let is_eligible = is_entry_bundle_eligible(&entries[*index]);
                let was_in_bundle = get_bundle_for_entry(bundles, *index).is_some();
                let is_trailing = ends_at(bundles, *index);
                return !is_trailing && was_in_bundle == is_eligible;
            }
        }
    }
    false
}

/// Where the bundle begins that holds an entry or ends right before it; where there is none, the
/// entry itself.
fn start_touched(bundles: &[ToolCallBundle], index: usize) -> (start: usize)
    requires
        ordered(views(bundles@)),
    ensures
        start == touched_start(views(bundles@), index as int),
{
    proof {
        ordered_is_sorted(views(bundles@));
    }
    let mut start: usize = index;
    if let Some(bundle) = get_bundle_for_entry(bundles, index) {
        if bundle.start_index < start {
            start = bundle.start_index;
        }
    }
    if index > 0 {
        if let Some(bundle) = get_bundle_for_entry(bundles, index - 1) {
            if bundle.end_index == index {
                if bundle.start_index < start {
                    start = bundle.start_index;
                }
            }
        }
    }
    start
}

/// Whether a hint speaks of places that the entries or the bundles have.
pub fn check_hint(
    bundles: &[ToolCallBundle],
    entries: &[AgentThreadEntry],
    hint: &Option<BundleRecomputeHint>,
) -> (in_bounds: bool)
    requires
        ordered(views(bundles@)),
    ensures
        in_bounds == hint_in_bounds(views(bundles@), entries@, *hint),
{
    match hint {
        Some(BundleRecomputeHint::NewEntry(index)) => {
            *index <= entries.len() || start_touched(bundles, *index) <= entries.len()
        },
        Some(BundleRecomputeHint::EntryUpdated(index)) => {
            *index <= entries.len() || start_touched(bundles, *index) <= entries.len()
        },
        Some(BundleRecomputeHint::EntriesRemoved { range }) => range.start <= entries.len(),
        None => true,
    }
}

/// Finds the earliest entry index whose bundle might be affected by the
/// hinted change. Bundles entirely before this index are preserved as-is.
pub fn affected_start(
    bundles: &[ToolCallBundle],
    entries: &[AgentThreadEntry],
    hint: &BundleRecomputeHint,
) -> (start: usize)
    requires
        ordered(views(bundles@)),
        hint_in_bounds(views(bundles@), entries@, Some(*hint)),
    ensures
        start == affected(views(bundles@), entries@, *hint),
        start <= entries@.len(),
{
    let index: usize = match hint {
        BundleRecomputeHint::NewEntry(index) => *index,
        BundleRecomputeHint::EntryUpdated(index) => *index,
        BundleRecomputeHint::EntriesRemoved { range } => range.start,
    };
    proof {
        touched_start_bounds(views(bundles@), index as int);
    }
    let mut start: usize = start_touched(bundles, index);
    // Walk back through contiguous eligible entries to catch
    // singletons that might form or join a bundle.
    let ghost touched = start;
    while start > 0 && is_entry_bundle_eligible(&entries[start - 1])
        invariant
            start <= entries@.len(),
            walked_back(entries@, start as int) == walked_back(entries@, touched as int),
        decreases start,
    {
        start -= 1;
    }
    start
}

/// Bundles after a change that does not keep them all.
pub fn refresh_bundles(
    bundles: &[ToolCallBundle],
    entries: &[AgentThreadEntry],
    hint: &Option<BundleRecomputeHint>,
) -> (fresh: Vec<ToolCallBundle>)
    requires
        ordered(views(bundles@)),
        tallies_fit(entries@),
        hint_in_bounds(views(bundles@), entries@, *hint),
        !keeps_bundles(views(bundles@), entries@, *hint),
    ensures
        views(fresh@) == recomputed(views(bundles@), entries@, *hint),
        ordered(views(fresh@)),
{
    let ghost all = views(bundles@);
    match hint {
        Some(change) => {
            let at: usize = affected_start(bundles, entries, change);
            let mut fresh: Vec<ToolCallBundle> = Vec::new();
            let mut i: usize = 0;
            while i < bundles.len() && bundles[i].end_index <= at
                invariant
                    i <= bundles@.len(),
                    all == views(bundles@),
                    first_beyond(all, at as int, i as int) == first_beyond(all, at as int, 0),
                    forall|j: int| 0 <= j < i ==> (#[trigger] all[j]).end <= at,
                    views(fresh@) == all.take(i as int),
                decreases bundles@.len() - i,
            {
                let copy = bundles[i].clone();
                let ghost kept = fresh@;
                fresh.push(copy);
                assert(views(fresh@) =~= views(kept).push(all[i as int]));
                i += 1;
            }
            assert(first_beyond(all, at as int, i as int) == i);
            proof {
                tallies_of_tail_fit(entries@, at as int);
                bundles_move(entries@, at as int, 0);
                bundles_are_ordered(entries@, at as int, 0);
                assert(entries@.subrange(at as int, entries@.len() as int) =~= entries@.skip(
                    at as int,
                ));
            }
            let mut suffix = compute_tool_call_bundles(
                vstd::slice::slice_subrange(entries, at, entries.len()),
                at,
            );
            let ghost head = views(fresh@);
            let ghost tail = views(suffix@);
            fresh.append(&mut suffix);
            assert(views(fresh@) =~= head + tail);
            proof {
                spliced_is_ordered(all, at as int, tail);
            }
            fresh
        },
        None => {
            proof {
                bundles_are_ordered(entries@, 0, 0);
            }
            let count: usize = entries.len();
            assert(count == entries@.len());
            compute_tool_call_bundles(entries, 0)
        },
    }
}

/// Bundles that follow one another still do so after a change.
pub proof fn recomputed_is_ordered(
    bundles: Seq<BundleView>,
    entries: Seq<AgentThreadEntry>,
    hint: Option<BundleRecomputeHint>,
)
    requires
        ordered(bundles),
        hint_in_bounds(bundles, entries, hint),
    ensures
        ordered(recomputed(bundles, entries, hint)),
{
    if !keeps_bundles(bundles, entries, hint) {
        match hint {
            Some(change) => {
                affected_in_bounds(bundles, entries, change);
                let at = affected(bundles, entries, change);
                bundles_are_ordered(entries, at, 0);
                spliced_is_ordered(bundles, at, bundles_from(entries, at, 0));
            },
            None => {
                bundles_are_ordered(entries, 0, 0);
            },
        }
    }
}

/// The entry from which on bundles are computed anew is one of the entries or their end.
proof fn affected_in_bounds(
    bundles: Seq<BundleView>,
    entries: Seq<AgentThreadEntry>,
    hint: BundleRecomputeHint,
)
    requires
        ordered(bundles),
        hint_in_bounds(bundles, entries, Some(hint)),
    ensures
        0 <= affected(bundles, entries, hint) <= entries.len(),
{
    match hint {
        BundleRecomputeHint::NewEntry(index) | BundleRecomputeHint::EntryUpdated(index) => {
            touched_start_bounds(bundles, index as int);
            walked_back_bounds(entries, touched_start(bundles, index as int));
        },
        BundleRecomputeHint::EntriesRemoved { range } => {
            touched_start_bounds(bundles, range.start as int);
            walked_back_bounds(entries, touched_start(bundles, range.start as int));
        },
    }
}

/// Walking back leads no further than to the first entry.
proof fn walked_back_bounds(entries: Seq<AgentThreadEntry>, start: int)
    requires
        0 <= start,
    ensures
        0 <= walked_back(entries, start) <= start,
    decreases start,
{
    if start > 0 && eligible(entries[start - 1]) {
        walked_back_bounds(entries, start - 1);
    }
}

/// The bundles around an entry begin at that entry or before.
pub proof fn touched_start_bounds(bundles: Seq<BundleView>, ix: int)
    requires
        ordered(bundles),
        0 <= ix,
    ensures
        0 <= touched_start(bundles, ix) <= ix,
{
    let before: int = ix - 1;
    if bundle_at(bundles, before) is Some {
        let i = choose|i: int| holds(bundles, before, i);
        assert(holds(bundles, before, i));
    }
    if bundle_at(bundles, ix) is Some {
        let i = choose|i: int| holds(bundles, ix, i);
        assert(holds(bundles, ix, i));
    }
}

/// Bundles that end by `at`, followed by bundles that begin there or later, follow one another.
proof fn spliced_is_ordered(bundles: Seq<BundleView>, at: int, tail: Seq<BundleView>)
    requires
        ordered(bundles),
        ordered(tail),
        forall|i: int| 0 <= i < tail.len() ==> at <= (#[trigger] tail[i]).start,
    ensures
        ordered(ending_by(bundles, at) + tail),
{
    ends_by(bundles, at, 0);
    let head = ending_by(bundles, at);
    let all = head + tail;
    assert forall|i: int, j: int| 0 <= i < j < all.len() implies (#[trigger] all[i]).end <= (
    #[trigger] all[j]).start by {
        if j < head.len() {
            assert(bundles[i].end <= bundles[j].start);
        } else if i < head.len() {
            assert(bundles[i].end <= at);
        } else {
            assert(tail[i - head.len()].end <= tail[j - head.len()].start);
        }
    }
}

} // verus!
