//! The slots in which a server keeps its routes in order.

use slab::Slab;
use vstd::prelude::*;

verus! {

/// `slab::Slab`: a store that gives out the key of each item.
#[verifier::external_type_specification]
#[verifier::external_body]
#[verifier::reject_recursive_types(T)]
pub struct ExSlab<T>(Slab<T>);

/// The items of a slab, by their keys.
pub uninterp spec fn slot_items(slots: Slab<usize>) -> Map<int, usize>;

/// No key of a slab waits to be given out again: as many keys were given out as
/// there are items.
pub uninterp spec fn has_no_gaps(slots: Slab<usize>) -> bool;

/// The items stand in the order of their keys.
pub open spec fn is_in_key_order(items: Map<int, usize>, listed: Seq<usize>) -> bool {
    exists|keys: Seq<int>|
        {
            &&& #[trigger] keys.to_set() == items.dom()
            &&& keys.len() == listed.len()
            &&& forall|i: int, j: int| 0 <= i < j < keys.len() ==> keys[i] < keys[j]
            &&& forall|i: int| 0 <= i < keys.len() ==> listed[i] == items[#[trigger] keys[i]]
        }
}

/// Calls `slab::Slab::new`, which makes a slab without items.
#[verifier::external_body]
pub(crate) fn new_slots() -> (slots: Slab<usize>)
    ensures
        slot_items(slots).dom().is_empty(),
        has_no_gaps(slots),
{
    Slab::new()
}

/// Calls `slab::Slab::insert`, which stores an item under a key that no other
/// item has. Claims that this is the number of the items before, if no key
/// waits to be given out again, and that none waits afterwards then either. The
/// bound leaves out the slabs whose storage would outgrow `isize::MAX` bytes.
#[verifier::external_body]
pub(crate) fn insert_item(slots: &mut Slab<usize>, item: usize) -> (key: usize)
    requires
        slot_items(*old(slots)).len() < usize::MAX / 64,
    ensures
        !slot_items(*old(slots)).contains_key(key as int),
        slot_items(*final(slots)) == slot_items(*old(slots)).insert(key as int, item),
        has_no_gaps(*old(slots)) ==> {
            &&& key == slot_items(*old(slots)).len()
            &&& has_no_gaps(*final(slots))
        },
{
    slots.insert(item)
}

/// Calls `slab::Slab::iter`, which walks the items in the order of their keys.
#[verifier::external_body]
pub(crate) fn list_items(slots: &Slab<usize>) -> (listed: Vec<usize>)
    ensures
        is_in_key_order(slot_items(*slots), listed@),
{
    slots.iter().map(|(_, item)| *item).collect()
}

/// In a slab that holds each number under itself, the items are listed from the
/// lowest up.
pub(crate) proof fn lemma_numbers_in_key_order(items: Map<int, usize>, listed: Seq<usize>, n: int)
    requires
        0 <= n,
        is_in_key_order(items, listed),
        forall|key: int| #[trigger] items.contains_key(key) <==> 0 <= key < n,
        forall|key: int| 0 <= key < n ==> #[trigger] items[key] == key,
    ensures
        listed.len() == n,
        forall|i: int| 0 <= i < n ==> #[trigger] listed[i] == i,
{
    let keys = choose|keys: Seq<int>|
        {
            &&& #[trigger] keys.to_set() == items.dom()
            &&& keys.len() == listed.len()
            &&& forall|i: int, j: int| 0 <= i < j < keys.len() ==> keys[i] < keys[j]
            &&& forall|i: int| 0 <= i < keys.len() ==> listed[i] == items[#[trigger] keys[i]]
        };
    assert forall|i: int| 0 <= i < keys.len() implies 0 <= #[trigger] keys[i] < n by {
        assert(keys.to_set().contains(keys[i]));
        assert(items.contains_key(keys[i]));
    }
    assert forall|key: int| 0 <= key < n implies keys.contains(key) by {
        assert(items.contains_key(key));
        assert(keys.to_set().contains(key));
    }
    lemma_increasing_numbers(keys, n, keys.len() as int);
    if keys.len() < n {
        assert(keys.contains(keys.len() as int));
        let i = choose|i: int| 0 <= i < keys.len() && keys[i] == keys.len();
        assert(keys[i] == i);
    }
    if keys.len() > n {
        assert(keys[n] == n);
    }
    assert forall|i: int| 0 <= i < n implies #[trigger] listed[i] == i by {
        assert(keys[i] == i);
    }
}

/// An increasing sequence that holds all numbers below a bound, and only
/// those, starts with them in their order.
proof fn lemma_increasing_numbers(keys: Seq<int>, n: int, count: int)
    requires
        0 <= count <= keys.len(),
        forall|i: int, j: int| 0 <= i < j < keys.len() ==> keys[i] < keys[j],
        forall|i: int| 0 <= i < keys.len() ==> 0 <= #[trigger] keys[i] < n,
        forall|key: int| 0 <= key < n ==> keys.contains(key),
    ensures
        forall|i: int| 0 <= i < count ==> #[trigger] keys[i] == i,
    decreases count,
{
    if count > 0 {
        let last = count - 1;
        lemma_increasing_numbers(keys, n, last);
        if last > 0 {
            assert(keys[last - 1] == last - 1);
        }
        assert(keys[last] >= last);
        assert(keys.contains(last));
        let i = choose|i: int| 0 <= i < keys.len() && keys[i] == last;
        if i < last {
            assert(keys[i] == i);
        } else if i > last {
            assert(keys[last] < keys[i]);
        }
    }
}

} // verus!
