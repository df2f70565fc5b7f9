//! Package identifiers are collected in an `IndexSet` of the `indexmap` crate,
//! which keeps its items in the order of their insertion. This module
//! declares the type and states what the library relies on; nothing here is
//! proved.

use vstd::prelude::*;

verus! {

#[verifier::external_type_specification]
#[verifier::external_body]
#[verifier::reject_recursive_types(T)]
#[verifier::reject_recursive_types(S)]
pub struct ExIndexSet<T, S>(indexmap::IndexSet<T, S>);

/// The items of a set, in the order of their insertion.
pub uninterp spec fn package_set_items(set: indexmap::IndexSet<u64>) -> Seq<u64>;

/// The items with `item` after them, unless they hold it already.
pub open spec fn insert_unique(items: Seq<u64>, item: u64) -> Seq<u64> {
    if items.contains(item) {
        items
    } else {
        items.push(item)
    }
}

/// `indexmap::IndexSet::new`: a set without items.
#[verifier::external_body]
pub(crate) fn package_set_new() -> (set: indexmap::IndexSet<u64>)
    ensures
        package_set_items(set) == Seq::<u64>::empty(),
{
    indexmap::IndexSet::new()
}

/// `indexmap::IndexSet::insert`: an item that the set does not hold is placed
/// after the others and `true` is returned; for an item that it holds the set
/// is left as it is and `false` is returned.
#[verifier::external_body]
pub(crate) fn package_set_insert(set: &mut indexmap::IndexSet<u64>, item: u64) -> (added: bool)
    ensures
        package_set_items(*final(set)) == insert_unique(package_set_items(*old(set)), item),
        added == !package_set_items(*old(set)).contains(item),
{
    set.insert(item)
}

/// `indexmap::IndexSet::len`: the number of items.
#[verifier::external_body]
pub(crate) fn package_set_len(set: &indexmap::IndexSet<u64>) -> (n: usize)
    ensures
        n == package_set_items(*set).len(),
{
    set.len()
}

/// `indexmap::IndexSet::get_index`: the item at a place in the order of
/// insertion, if the set holds that many.
#[verifier::external_body]
pub(crate) fn package_set_get(set: &indexmap::IndexSet<u64>, index: usize) -> (item: Option<u64>)
    ensures
        item == if index < package_set_items(*set).len() {
            Some(package_set_items(*set)[index as int])
        } else {
            None
        },
{
    set.get_index(index).copied()
}

} // verus!
