//! Sets of keys.

use vstd::prelude::*;

use crate::bundle::BundleId;
use crate::thread::ToolCallId;

verus! {

/// What can be an element of a [`KeySet`]. Keys are told apart by their views.
pub trait Key: View + Sized {
    /// Whether two keys are the same.
    fn same(&self, other: &Self) -> (same: bool)
        ensures
            same == (self@ == other@),
    ;
}

impl Key for (usize, usize) {
    fn same(&self, other: &Self) -> (same: bool) {
        self.0 == other.0 && self.1 == other.1
    }
}

impl Key for ToolCallId {
    fn same(&self, other: &Self) -> (same: bool) {
        self.same_as(other)
    }
}

impl Key for BundleId {
    fn same(&self, other: &Self) -> (same: bool) {
        self.same_as(other)
    }
}

/// A set of keys, in which no key occurs twice. It is for keys that are not integers: only of those
/// is it specified how a hash set tells them apart.
#[verifier::reject_recursive_types(K)]
pub struct KeySet<K: Key> {
    items: Vec<K>,
}

impl<K: Key> View for KeySet<K> {
    type V = Set<K::V>;

    closed spec fn view(&self) -> Set<K::V> {
        Set::new(|key: K::V| occurs(self.items@, key))
    }
}

/// Whether a key occurs among some items.
spec fn occurs<K: Key>(items: Seq<K>, key: K::V) -> bool {
    exists|i: int| 0 <= i < items.len() && (#[trigger] items[i])@ == key
}

/// Whether no key occurs twice among some items.
spec fn distinct<K: Key>(items: Seq<K>) -> bool {
    forall|i: int, j: int|
        0 <= i < j < items.len() ==> (#[trigger] items[i])@ != (#[trigger] items[j])@
}

impl<K: Key> KeySet<K> {
    #[verifier::type_invariant]
    spec fn no_key_twice(self) -> bool {
        distinct(self.items@)
    }

    /// The set without elements.
    pub fn new() -> (set: Self)
        ensures
            set@ == Set::<K::V>::empty(),
    {
        let set = KeySet { items: Vec::new() };
        assert(set@ =~= Set::<K::V>::empty());
        set
    }

    fn position(&self, key: &K) -> (found: Option<usize>)
        ensures
            match found {
                Some(i) => i < self.items@.len() && self.items@[i as int]@ == key@,
                None => !self@.contains(key@),
            },
    {
        let mut i: usize = 0;
        while i < self.items.len()
            invariant
                i <= self.items@.len(),
                forall|j: int| 0 <= j < i ==> (#[trigger] self.items@[j])@ != key@,
            decreases self.items@.len() - i,
        {
            if self.items[i].same(key) {
                return Some(i);
            }
            i += 1;
        }
        None
    }

    /// Whether `key` is an element.
    pub fn contains(&self, key: &K) -> (contained: bool)
        ensures
            contained == self@.contains(key@),
    {
        self.position(key).is_some()
    }

    /// Whether there is no element.
    pub fn is_empty(&self) -> (empty: bool)
        ensures
            empty == (self@ =~= Set::<K::V>::empty()),
    {
        proof {
            if self.items@.len() > 0 {
                assert(self@.contains(self.items@[0]@));
            }
        }
        self.items.len() == 0
    }

    /// Adds an element, and says whether it is new.
    pub fn insert(&mut self, key: K) -> (added: bool)
        ensures
            final(self)@ == old(self)@.insert(key@),
            added == !old(self)@.contains(key@),
    {
        proof {
            use_type_invariant(&*self);
        }
        if self.contains(&key) {
            assert(self@ =~= old(self)@.insert(key@));
            return false;
        }
        let mut items: Vec<K> = Vec::new();
        std::mem::swap(&mut items, &mut self.items);
        let ghost before = items@;
        items.push(key);
        proof {
            assert forall|k: K::V| occurs(items@, k) <==> occurs(before, k) || k == key@ by {
                if occurs(before, k) {
                    let i = choose|i: int| 0 <= i < before.len() && (#[trigger] before[i])@ == k;
                    assert(items@[i]@ == k);
                }
                if k == key@ {
                    assert(items@[before.len() as int]@ == k);
                }
            }
            assert(!occurs(before, key@));
            assert(distinct(items@));
        }
        self.items = items;
        assert(self@ =~= old(self)@.insert(key@));
        true
    }

    /// Takes an element out, and says whether it was there.
    pub fn remove(&mut self, key: &K) -> (removed: bool)
        ensures
            final(self)@ == old(self)@.remove(key@),
            removed == old(self)@.contains(key@),
    {
        proof {
            use_type_invariant(&*self);
        }
        match self.position(key) {
            Some(at) => {
                let mut items: Vec<K> = Vec::new();
                std::mem::swap(&mut items, &mut self.items);
                let ghost before = items@;
                assert(occurs(before, key@));
                items.remove(at);
                proof {
                    remove_is_exact(before, at as int);
                }
                self.items = items;
                assert(self@ =~= old(self)@.remove(key@));
                true
            },
            None => {
                assert(self@ =~= old(self)@.remove(key@));
                false
            },
        }
    }

    /// Takes all elements out.
    pub fn clear(&mut self)
        ensures
            final(self)@ == Set::<K::V>::empty(),
    {
        self.items = Vec::new();
        assert(self@ =~= Set::<K::V>::empty());
    }

    /// Keeps the elements that are also elements of `others`.
    pub fn retain_in(&mut self, others: &KeySet<K>)
        ensures
            final(self)@ == old(self)@.intersect(others@),
    {
        proof {
            use_type_invariant(&*self);
        }
        let mut items: Vec<K> = Vec::new();
        std::mem::swap(&mut items, &mut self.items);
        let ghost before = items@;
        let mut i: usize = 0;
        while i < items.len()
            invariant
                i <= items@.len(),
                distinct(items@),
                forall|key: K::V| occurs(items@, key) ==> occurs(before, key),
                forall|key: K::V|
                    occurs(before, key) && others@.contains(key) ==> #[trigger] occurs(items@, key),
                forall|j: int| 0 <= j < i ==> others@.contains((#[trigger] items@[j])@),
            decreases items@.len() - i,
        {
            if others.contains(&items[i]) {
                i += 1;
            } else {
                let ghost trimmed = items@;
                items.remove(i);
                proof {
                    remove_is_exact(trimmed, i as int);
                    assert forall|j: int| 0 <= j < i implies others@.contains(
                        (#[trigger] items@[j])@,
                    ) by {
                        assert(items@[j] == trimmed[j]);
                    }
                }
            }
        }
        self.items = items;
        proof {
            assert forall|key: K::V| self@.contains(key) <==> old(self)@.contains(key)
                && others@.contains(key) by {
                if occurs(items@, key) {
                    let j = choose|j: int| 0 <= j < items@.len() && (#[trigger] items@[j])@ == key;
                    assert(others@.contains(items@[j]@));
                }
            }
            assert(self@ =~= old(self)@.intersect(others@));
        }
    }

    /// The elements, each of them once.
    pub fn as_slice(&self) -> (elements: &[K])
        ensures
            forall|i: int| 0 <= i < elements@.len() ==> self@.contains((#[trigger] elements@[i])@),
            forall|key: K::V| #[trigger]
                self@.contains(key) ==> exists|i: int|
                    0 <= i < elements@.len() && (#[trigger] elements@[i])@ == key,
            forall|i: int, j: int|
                0 <= i < j < elements@.len() ==> (#[trigger] elements@[i])@ != (
                #[trigger] elements@[j])@,
    {
        proof {
            use_type_invariant(self);
        }
        self.items.as_slice()
    }
}

/// Taking one item out of distinct ones takes its key out, and no other.
proof fn remove_is_exact<K: Key>(items: Seq<K>, at: int)
    requires
        0 <= at < items.len(),
        distinct(items),
    ensures
        distinct(items.remove(at)),
        forall|key: K::V| #[trigger]
            occurs(items.remove(at), key) <==> occurs(items, key) && key != items[at]@,
{
    let left = items.remove(at);
    assert forall|i: int, j: int| 0 <= i < j < left.len() implies (#[trigger] left[i])@ != (
    #[trigger] left[j])@ by {
        let from_i = if i < at { i } else { i + 1 };
        let from_j = if j < at { j } else { j + 1 };
        assert(items[from_i]@ != items[from_j]@);
    }
    assert forall|key: K::V| #[trigger] occurs(left, key) <==> occurs(items, key) && key
        != items[at]@ by {
        if occurs(left, key) {
            let i = choose|i: int| 0 <= i < left.len() && (#[trigger] left[i])@ == key;
            let from = if i < at { i } else { i + 1 };
            assert(items[from]@ == key);
            if from < at {
                assert(items[from]@ != items[at]@);
            } else {
                assert(items[at]@ != items[from]@);
            }
        }
        if occurs(items, key) && key != items[at]@ {
            let from = choose|i: int| 0 <= i < items.len() && (#[trigger] items[i])@ == key;
            let i = if from < at { from } else { from - 1 };
            assert(left[i]@ == key);
        }
    }
}

/// What a set contains is told: nothing when it is new; after something is put in or taken out, that
/// and no more than that differs, and whether it differs is told as well.
pub proof fn sets_contain_what_was_put_in<K: Key>(
    fresh: KeySet<K>,
    grown: &mut KeySet<K>,
    shrunk: &mut KeySet<K>,
    key: K,
    added: bool,
    removed: bool,
    asked: KeySet<K>,
    other: K,
    contained: bool,
    empty: bool,
)
    requires
        call_ensures(KeySet::<K>::new, (), fresh),
        call_ensures(KeySet::<K>::insert, (grown, key), added),
        call_ensures(KeySet::<K>::remove, (shrunk, &key), removed),
        call_ensures(KeySet::<K>::contains, (&asked, &other), contained),
        call_ensures(KeySet::<K>::is_empty, (&asked,), empty),
    ensures
        asked == fresh ==> !contained && empty,
        asked == *final(grown) ==> contained == (other@ == key@ || old(grown)@.contains(other@)),
        asked == *old(grown) && other@ == key@ ==> added == !contained,
        asked == *final(shrunk) ==> contained == (other@ != key@ && old(shrunk)@.contains(other@)),
        asked == *old(shrunk) && other@ == key@ ==> removed == contained,
        contained == asked@.contains(other@),
        contained ==> !empty,
{
}

} // verus!
