//! Observed-remove set: every add carries a unique tag, and removal only
//! marks the tagged items, so concurrent adds survive a merge.

use vstd::prelude::*;
use crate::types::{items_view, EntryValue, EntryValueView, OrSetItem, OrSetItemView};
use crate::text::str_equal;

verus! {

/// An empty set.
pub fn new() -> (r: EntryValue)
    ensures
        r@ == EntryValueView::OrSet(Seq::empty()),
{
    let items: Vec<OrSetItem> = Vec::new();
    let r = EntryValue::OrSet(items);
    assert(items_view(items@) =~= Seq::<OrSetItemView>::empty());
    r
}

/// A fresh unique tag for one add operation.
///
/// Calls `uuid::Uuid::new_v4` and formats the result with `Display`, which
/// the uuid crate writes in the hyphenated form of 36 characters
/// (`67e55044-10b1-426f-9247-bb680e5fe0c8`). The tag is random: the contract
/// states its length only, and nothing of its uniqueness.
#[verifier::external_body]
fn new_tag() -> (tag: String)
    ensures
        tag@.len() == 36,
{
    uuid::Uuid::new_v4().to_string()
}

/// The item that an add of `value` under `tag` creates.
pub open spec fn added_item(value: Seq<char>, tag: Seq<char>) -> OrSetItemView {
    OrSetItemView { value, tag, removed: false }
}

/// Add `item` under the given tag. Values other than a set are left unchanged.
pub fn add_tagged(value: &mut EntryValue, item: String, tag: String)
    ensures
        final(value)@ == match old(value)@ {
            EntryValueView::OrSet(items) => EntryValueView::OrSet(
                items.push(added_item(item@, tag@)),
            ),
            v => v,
        },
{
    if let EntryValue::OrSet(items) = value {
        let ghost before = items@;
        items.push(OrSetItem { value: item, tag, removed: false });
        assert(items_view(items@) =~= items_view(before).push(added_item(item@, tag@)));
    }
}

/// Add `item` under a fresh random tag. Values other than a set are left unchanged.
pub fn add(value: &mut EntryValue, item: String)
    ensures
        match old(value)@ {
            EntryValueView::OrSet(items) => exists|tag: Seq<char>|
                tag.len() == 36 && final(value)@ == EntryValueView::OrSet(
                    items.push(#[trigger] added_item(item@, tag)),
                ),
            v => final(value)@ == v,
        },
{
    if let EntryValue::OrSet(_) = value {
        let tag = new_tag();
        add_tagged(value, item, tag);
    }
}

/// The items after removing `x`: every item with that value is marked removed.
pub open spec fn remove_all(items: Seq<OrSetItemView>, x: Seq<char>) -> Seq<OrSetItemView> {
    items.map_values(
        |i: OrSetItemView|
            if i.value == x {
                OrSetItemView { value: i.value, tag: i.tag, removed: true }
            } else {
                i
            },
    )
}

/// Mark every item equal to `item` as removed; nothing is deleted. Values other
/// than a set are left unchanged.
pub fn remove(value: &mut EntryValue, item: &str)
    ensures
        final(value)@ == match old(value)@ {
            EntryValueView::OrSet(items) => EntryValueView::OrSet(remove_all(items, item@)),
            v => v,
        },
{
    if let EntryValue::OrSet(items) = value {
        let ghost before = items@;
        let mut i: usize = 0;
        while i < items.len()
            invariant
                i <= items.len(),
                items.len() == before.len(),
                forall|k: int|
                    0 <= k < i ==> #[trigger] items@[k]@ == remove_all(items_view(before), item@)[k],
                forall|k: int| i <= k < items.len() ==> #[trigger] items@[k] == before[k],
            decreases items.len() - i,
        {
            if str_equal(items[i].value.as_str(), item) {
                let mut it = items[i].copy();
                it.removed = true;
                items.set(i, it);
            }
            i = i + 1;
        }
        assert(items_view(items@) =~= remove_all(items_view(before), item@));
    }
}

/// Removing `x` marks exactly the items whose value is `x` as removed, keeping
/// their value and tag, and leaves every other item as it was; in particular an
/// item already removed stays removed, and no item is added or dropped.
pub proof fn lemma_remove_marks_only_matches(items: Seq<OrSetItemView>, x: Seq<char>)
    ensures
        remove_all(items, x).len() == items.len(),
        forall|k: int|
            0 <= k < items.len() && items[k].value != x ==> #[trigger] remove_all(items, x)[k]
                == items[k],
        forall|k: int|
            0 <= k < items.len() && items[k].value == x ==> #[trigger] remove_all(items, x)[k]
                == (OrSetItemView { value: items[k].value, tag: items[k].tag, removed: true }),
        forall|k: int|
            0 <= k < items.len() && items[k].removed ==> (#[trigger] remove_all(items, x)[k]).removed,
{
}

/// The values of the items that are not removed, in order.
pub open spec fn visible(items: Seq<OrSetItemView>) -> Seq<Seq<char>>
    decreases items.len(),
{
    if items.len() == 0 {
        Seq::empty()
    } else if items.last().removed {
        visible(items.drop_last())
    } else {
        visible(items.drop_last()).push(items.last().value)
    }
}

/// The values of the items that are not removed; empty for any other kind of value.
pub fn read(value: &EntryValue) -> (r: Vec<&str>)
    ensures
        r@.map_values(|s: &str| s@) == match value@ {
            EntryValueView::OrSet(items) => visible(items),
            _ => Seq::<Seq<char>>::empty(),
        },
{
    let mut r: Vec<&str> = Vec::new();
    if let EntryValue::OrSet(items) = value {
        let mut i: usize = 0;
        while i < items.len()
            invariant
                i <= items.len(),
                r@.map_values(|s: &str| s@) == visible(items_view(items@.take(i as int))),
            decreases items.len() - i,
        {
            assert(items_view(items@.take(i + 1)).drop_last() =~= items_view(items@.take(i as int)));
            if !items[i].removed {
                r.push(items[i].value.as_str());
            }
            assert(r@.map_values(|s: &str| s@) =~= visible(items_view(items@.take(i + 1))));
            i = i + 1;
        }
        assert(items@.take(items.len() as int) =~= items@);
    } else {
        assert(r@.map_values(|s: &str| s@) =~= Seq::<Seq<char>>::empty());
    }
    r
}

/// After an add, the added value is visible.
pub proof fn lemma_add_then_visible(items: Seq<OrSetItemView>, x: Seq<char>, tag: Seq<char>)
    ensures
        visible(items.push(added_item(x, tag))).contains(x),
{
    let n = items.push(added_item(x, tag));
    assert(n.drop_last() =~= items);
    assert(visible(n).last() == x);
}

/// After a remove, the removed value is no longer visible.
pub proof fn lemma_remove_then_hidden(items: Seq<OrSetItemView>, x: Seq<char>)
    ensures
        !visible(remove_all(items, x)).contains(x),
    decreases items.len(),
{
    if items.len() > 0 {
        lemma_remove_then_hidden(items.drop_last(), x);
        assert(remove_all(items, x).drop_last() =~= remove_all(items.drop_last(), x));
        let v = visible(remove_all(items, x));
        let p = visible(remove_all(items.drop_last(), x));
        if !remove_all(items, x).last().removed {
            assert(v =~= p.push(items.last().value));
            assert forall|k: int| 0 <= k < v.len() implies v[k] != x by {
                if k < p.len() {
                    assert(v[k] == p[k]);
                }
            }
        }
    } else {
        assert(remove_all(items, x) =~= Seq::<OrSetItemView>::empty());
    }
}

} // verus!
