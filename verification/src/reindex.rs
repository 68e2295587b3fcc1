//! Entry indices across the removal of a contiguous range of entries.

use std::collections::HashSet;

use vstd::prelude::*;

use crate::key_set::KeySet;

verus! {

/// Where the entry at `index` ends up once the entries `start..end` are gone, or `None` when it is
/// one of them. A range whose end does not lie beyond its start removes nothing.
pub open spec fn reindexed(index: int, start: int, end: int) -> Option<int> {
    if index < start {
        Some(index)
    } else if index < end {
        None
    } else if start < end {
        Some(index - (end - start))
    } else {
        Some(index)
    }
}

/// Maps an entry index through the removal of `removed` (a contiguous range of entries),
/// returning `None` if the index referred to a removed entry.
pub fn reindex_after_removal(index: usize, removed: &std::ops::Range<usize>) -> (moved: Option<usize>)
    ensures
        match reindexed(index as int, removed.start as int, removed.end as int) {
            Some(to) => moved == Some(to as usize) && 0 <= to <= index,
            None => moved is None,
        },
{
    if index < removed.start {
        Some(index)
    } else if index < removed.end {
        None
    } else if removed.start < removed.end {
        Some(index - (removed.end - removed.start))
    } else {
        Some(index)
    }
}

/// Entry indices after a removal.
pub open spec fn reindexed_set(indices: Set<usize>, start: int, end: int) -> Set<usize> {
    Set::new(
        |to: usize|
            exists|from: usize| #[trigger]
                indices.contains(from) && reindexed(from as int, start, end) == Some(to as int),
    )
}

/// Pairs of an entry index and a chunk index after a removal of entries.
pub open spec fn reindexed_blocks(
    blocks: Set<(usize, usize)>,
    start: int,
    end: int,
) -> Set<(usize, usize)> {
    Set::new(
        |to: (usize, usize)|
            exists|from: usize| #[trigger]
                blocks.contains((from, to.1)) && reindexed(from as int, start, end) == Some(
                    to.0 as int,
                ),
    )
}

/// A pair of an entry index and a chunk index after a removal of entries.
pub open spec fn reindexed_block(block: Option<(usize, usize)>, start: int, end: int) -> Option<
    (usize, usize),
> {
    match block {
        Some((entry_ix, chunk_ix)) => match reindexed(entry_ix as int, start, end) {
            Some(to) => Some((to as usize, chunk_ix)),
            None => None,
        },
        None => None,
    }
}

/// Maps entry indices through a removal.
pub fn reindex_all(indices: &HashSet<usize>, removed: &std::ops::Range<usize>) -> (moved: HashSet<
    usize,
>)
    ensures
        moved@ == reindexed_set(indices@, removed.start as int, removed.end as int),
{
    broadcast use vstd::std_specs::hash::group_hash_axioms;

    let mut moved: HashSet<usize> = HashSet::new();
    let ghost start = removed.start as int;
    let ghost end = removed.end as int;
    let ghost mut done: Seq<usize> = Seq::empty();
    for from in it: indices.iter()
        invariant
            start == removed.start,
            end == removed.end,
            it.seq().unref().to_set() == indices@,
            done == it.seq().unref().take(it.index()),
            it.index() == it.seq().len() ==> done =~= it.seq().unref(),
            forall|to: usize| #[trigger]
                moved@.contains(to) ==> reindexed_set(indices@, start, end).contains(to),
            forall|j: int, to: usize|
                0 <= j < done.len() && reindexed(#[trigger] done[j] as int, start, end) == Some(
                    to as int,
                ) ==> #[trigger] moved@.contains(to),
    {
        assert(it.seq().unref()[it.index()] == *from);
        assert(it.seq().unref().to_set().contains(*from));
        if let Some(to) = reindex_after_removal(*from, removed) {
            moved.insert(to);
        }
        proof {
            done = done.push(*from);
            assert(done =~= it.seq().unref().take(it.index() + 1));
        }
    }
    proof {
        assert forall|to: usize| reindexed_set(indices@, start, end).contains(
            to,
        ) implies moved@.contains(to) by {
            let from = choose|from: usize| #[trigger]
                indices@.contains(from) && reindexed(from as int, start, end) == Some(to as int);
            assert(done.to_set().contains(from));
            let j = choose|j: int| 0 <= j < done.len() && done[j] == from;
            assert(reindexed(done[j] as int, start, end) == Some(to as int));
        }
    }
    assert(moved@ =~= reindexed_set(indices@, start, end));
    moved
}

/// Maps pairs of an entry index and a chunk index through a removal of entries.
pub fn reindex_all_blocks(
    blocks: &KeySet<(usize, usize)>,
    removed: &std::ops::Range<usize>,
) -> (moved: KeySet<(usize, usize)>)
    ensures
        moved@ == reindexed_blocks(blocks@, removed.start as int, removed.end as int),
{
    let mut moved: KeySet<(usize, usize)> = KeySet::new();
    let elements = blocks.as_slice();
    let ghost start = removed.start as int;
    let ghost end = removed.end as int;
    let mut i: usize = 0;
    while i < elements.len()
        invariant
            i <= elements@.len(),
            start == removed.start,
            end == removed.end,
            forall|j: int| 0 <= j < elements@.len() ==> blocks@.contains(#[trigger] elements@[j]),
            forall|to: (usize, usize)| #[trigger]
                moved@.contains(to) ==> reindexed_blocks(blocks@, start, end).contains(to),
            forall|j: int, to: (usize, usize)|
                0 <= j < i && reindexed((#[trigger] elements@[j]).0 as int, start, end) == Some(
                    to.0 as int,
                ) && elements@[j].1 == to.1 ==> #[trigger] moved@.contains(to),
        decreases elements@.len() - i,
    {
        let (entry_ix, chunk_ix): (usize, usize) = elements[i];
        assert(blocks@.contains((entry_ix, chunk_ix)));
        if let Some(to) = reindex_after_removal(entry_ix, removed) {
            moved.insert((to, chunk_ix));
        }
        i += 1;
    }
    proof {
        assert forall|to: (usize, usize)| reindexed_blocks(blocks@, start, end).contains(
            to,
        ) implies moved@.contains(to) by {
            let from = choose|from: usize| #[trigger]
                blocks@.contains((from, to.1)) && reindexed(from as int, start, end) == Some(
                    to.0 as int,
                );
            let j = choose|j: int|
                0 <= j < elements@.len() && (#[trigger] elements@[j])@ == (from, to.1);
            assert(elements@[j] == (from, to.1));
        }
        assert(moved@ =~= reindexed_blocks(blocks@, start, end));
    }
    moved
}

/// Maps a pair of an entry index and a chunk index through a removal of entries.
pub fn reindex_block(block: Option<(usize, usize)>, removed: &std::ops::Range<usize>) -> (moved:
    Option<(usize, usize)>)
    ensures
        moved == reindexed_block(block, removed.start as int, removed.end as int),
{
    match block {
        Some((entry_ix, chunk_ix)) => match reindex_after_removal(entry_ix, removed) {
            Some(to) => Some((to, chunk_ix)),
            None => None,
        },
        None => None,
    }
}

/// Entries are found again where their indices are mapped to: exactly those in the removed range
/// are gone.
pub proof fn reindexed_entry_is_the_same<A>(entries: Seq<A>, start: int, end: int, index: int)
    requires
        0 <= start <= end <= entries.len(),
        0 <= index < entries.len(),
    ensures
        ({
            let left = entries.take(start) + entries.skip(end);
            match reindexed(index, start, end) {
                Some(to) => 0 <= to < left.len() && left[to] == entries[index],
                None => start <= index < end,
            }
        }),
{
}

/// Entries that are left keep their order, so no two of them get the same index.
pub proof fn reindexing_keeps_order(start: int, end: int, a: int, b: int)
    requires
        a < b,
        reindexed(a, start, end) is Some,
        reindexed(b, start, end) is Some,
    ensures
        reindexed(a, start, end)->0 < reindexed(b, start, end)->0,
{
}

/// Every index that is left is that of some entry.
pub proof fn every_index_left_is_reached(count: int, start: int, end: int, to: int)
    requires
        0 <= start <= end <= count,
        0 <= to < count - (end - start),
    ensures
        exists|from: int| 0 <= from < count && #[trigger] reindexed(from, start, end) == Some(to),
{
    let from: int = if to < start {
        to
    } else {
        to + (end - start)
    };
    assert(reindexed(from, start, end) == Some(to));
}

/// Removing a range at once is the same as removing its end and then its beginning.
pub proof fn removal_can_be_split(start: int, middle: int, end: int, index: int)
    requires
        start <= middle <= end,
    ensures
        reindexed(index, start, end) == match reindexed(index, middle, end) {
            Some(to) => reindexed(to, start, middle),
            None => None,
        },
{
}

/// An index before the removed range stays, one in it is gone, and one behind it moves up by as many
/// as were removed. A range that ends before it begins removes nothing.
pub proof fn indices_are_moved(index: usize, removed: std::ops::Range<usize>, moved: Option<usize>)
    requires
        call_ensures(reindex_after_removal, (index, &removed), moved),
    ensures
        index < removed.start ==> moved == Some(index),
        removed.start <= index < removed.end ==> moved is None,
        removed.start <= removed.end <= index ==> moved == Some(
            (index - (removed.end - removed.start)) as usize,
        ),
        removed.end < removed.start ==> moved == Some(index),
{
}

/// Whether an index is among those that remain, and whether a pair is, is told by where it was.
pub proof fn sets_of_indices_are_moved(
    indices: HashSet<usize>,
    blocks: KeySet<(usize, usize)>,
    removed: std::ops::Range<usize>,
    moved: HashSet<usize>,
    moved_blocks: KeySet<(usize, usize)>,
    from: usize,
    chunk_ix: usize,
    to: usize,
)
    requires
        call_ensures(reindex_all, (&indices, &removed), moved),
        call_ensures(reindex_all_blocks, (&blocks, &removed), moved_blocks),
        call_ensures(reindex_after_removal, (from, &removed), Some(to)),
    ensures
        moved@.contains(to) == indices@.contains(from),
        moved_blocks@.contains((to, chunk_ix)) == blocks@.contains((from, chunk_ix)),
{
    let (start, end) = (removed.start as int, removed.end as int);
    assert(reindexed(from as int, start, end) == Some(to as int));
    if moved@.contains(to) {
        let other = choose|other: usize| #[trigger]
            indices@.contains(other) && reindexed(other as int, start, end) == Some(to as int);
        assert(other == from);
    }
    if moved_blocks@.contains((to, chunk_ix)) {
        let other = choose|other: usize| #[trigger]
            blocks@.contains((other, chunk_ix)) && reindexed(other as int, start, end) == Some(
                to as int,
            );
        assert(other == from);
    }
}

} // verus!
