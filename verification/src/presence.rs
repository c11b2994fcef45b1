//! Presence: which of the wanted devices, if any, a device listing holds.

use crate::device_id::DeviceID;
use crate::usb::{enumeration_view, Entry, Enumeration, UsbError};
use vstd::prelude::*;

verus! {

/// Whether a listed device is one of the wanted ones. An entry whose descriptor could
/// not be read is never wanted.
pub open spec fn is_target(entry: Entry, ids: Seq<DeviceID>) -> bool {
    entry matches Some(id) && ids.contains(id)
}

/// The first wanted device of a listing, in enumeration order.
pub open spec fn first_match(snapshot: Seq<Entry>, ids: Seq<DeviceID>) -> Option<DeviceID>
    decreases snapshot.len(),
{
    if snapshot.len() == 0 {
        None
    } else if is_target(snapshot[0], ids) {
        snapshot[0]
    } else {
        first_match(snapshot.drop_first(), ids)
    }
}

/// Which wanted device is there: the first wanted device of the listing, and none when
/// the listing could not be made.
pub open spec fn present(devices: Result<Seq<Entry>, UsbError>, ids: Seq<DeviceID>) -> Option<
    DeviceID,
> {
    match devices {
        Ok(snapshot) => first_match(snapshot, ids),
        Err(_) => None,
    }
}

/// `first_match` answers `None` exactly when no entry is wanted, and otherwise the
/// identifier at the least index whose entry is wanted.
pub proof fn lemma_first_match(snapshot: Seq<Entry>, ids: Seq<DeviceID>)
    ensures
        first_match(snapshot, ids) is None <==> forall|i: int|
            0 <= i < snapshot.len() ==> !is_target(#[trigger] snapshot[i], ids),
        first_match(snapshot, ids) matches Some(id) ==> exists|i: int|
            0 <= i < snapshot.len() && #[trigger] snapshot[i] == Some(id) && ids.contains(id)
                && forall|j: int| 0 <= j < i ==> !is_target(#[trigger] snapshot[j], ids),
    decreases snapshot.len(),
{
    if snapshot.len() == 0 {
    } else if is_target(snapshot[0], ids) {
        assert(snapshot[0] == Some(snapshot[0]->0));
    } else {
        let rest = snapshot.drop_first();
        lemma_first_match(rest, ids);
        if first_match(rest, ids) is None {
            assert forall|i: int| 0 <= i < snapshot.len() implies !is_target(
                #[trigger] snapshot[i],
                ids,
            ) by {
                if i > 0 {
                    assert(rest[i - 1] == snapshot[i]);
                }
            }
        } else {
            let id = first_match(rest, ids)->0;
            let k = choose|k: int|
                0 <= k < rest.len() && #[trigger] rest[k] == Some(id) && ids.contains(id)
                    && forall|j: int| 0 <= j < k ==> !is_target(#[trigger] rest[j], ids);
            assert(snapshot[k + 1] == Some(id));
            assert forall|j: int| 0 <= j < k + 1 implies !is_target(
                #[trigger] snapshot[j],
                ids,
            ) by {
                if j > 0 {
                    assert(rest[j - 1] == snapshot[j]);
                }
            }
        }
    }
}

/// The first wanted entry decides: when the entry at `i` is wanted and none before it
/// is, that entry's identifier is the answer.
pub proof fn lemma_first_match_at(snapshot: Seq<Entry>, ids: Seq<DeviceID>, i: int)
    requires
        0 <= i < snapshot.len(),
        is_target(snapshot[i], ids),
        forall|j: int| 0 <= j < i ==> !is_target(#[trigger] snapshot[j], ids),
    ensures
        first_match(snapshot, ids) == snapshot[i],
    decreases i,
{
    if i > 0 {
        let rest = snapshot.drop_first();
        assert(!is_target(snapshot[0], ids));
        assert(rest[i - 1] == snapshot[i]);
        assert forall|j: int| 0 <= j < i - 1 implies !is_target(#[trigger] rest[j], ids) by {
            assert(rest[j] == snapshot[j + 1]);
        }
        lemma_first_match_at(rest, ids, i - 1);
    }
}

/// A listing that holds a wanted device is never answered with `None`: the answer is
/// one of the wanted identifiers, and it stands in the listing at or before that device.
pub proof fn lemma_present_device_is_found(snapshot: Seq<Entry>, ids: Seq<DeviceID>, i: int)
    requires
        0 <= i < snapshot.len(),
        is_target(snapshot[i], ids),
    ensures
        first_match(snapshot, ids) matches Some(id) && ids.contains(id) && exists|j: int|
            0 <= j <= i && #[trigger] snapshot[j] == Some(id),
{
    lemma_first_match(snapshot, ids);
    let id = first_match(snapshot, ids)->0;
    let k = choose|k: int|
        0 <= k < snapshot.len() && #[trigger] snapshot[k] == Some(id) && ids.contains(id)
            && forall|j: int| 0 <= j < k ==> !is_target(#[trigger] snapshot[j], ids);
    assert(k <= i);
}

/// Without wanted identifiers no device is found, whatever the listing holds.
pub proof fn lemma_no_targets(snapshot: Seq<Entry>)
    ensures
        first_match(snapshot, Seq::<DeviceID>::empty()) is None,
{
    lemma_first_match(snapshot, Seq::<DeviceID>::empty());
}

/// Only which identifiers are wanted counts, not their order nor how often each is
/// given: two target lists with the same members are answered alike on every listing.
pub proof fn lemma_target_order_irrelevant(
    snapshot: Seq<Entry>,
    ids: Seq<DeviceID>,
    other: Seq<DeviceID>,
)
    requires
        forall|id: DeviceID| ids.contains(id) <==> other.contains(id),
    ensures
        first_match(snapshot, ids) == first_match(snapshot, other),
    decreases snapshot.len(),
{
    if snapshot.len() > 0 {
        lemma_target_order_irrelevant(snapshot.drop_first(), ids, other);
    }
}

/// Reordering the wanted identifiers does not change the answer.
pub proof fn lemma_targets_permuted(snapshot: Seq<Entry>, ids: Seq<DeviceID>, other: Seq<DeviceID>)
    requires
        ids.to_multiset() == other.to_multiset(),
    ensures
        first_match(snapshot, ids) == first_match(snapshot, other),
{
    assert forall|id: DeviceID| ids.contains(id) <==> other.contains(id) by {
        ids.to_multiset_ensures();
        other.to_multiset_ensures();
        assert(ids.contains(id) <==> ids.to_multiset().count(id) > 0);
        assert(other.contains(id) <==> other.to_multiset().count(id) > 0);
    }
    lemma_target_order_irrelevant(snapshot, ids, other);
}

/// The order of the listing does count: of two wanted devices the one listed first is
/// answered, so the answer changes with them when the two change places.
pub proof fn lemma_listing_order_decides(
    snapshot: Seq<Entry>,
    ids: Seq<DeviceID>,
    i: int,
    j: int,
)
    requires
        0 <= i < j < snapshot.len(),
        is_target(snapshot[i], ids),
        is_target(snapshot[j], ids),
        forall|k: int| 0 <= k < i ==> !is_target(#[trigger] snapshot[k], ids),
    ensures
        first_match(snapshot, ids) == snapshot[i],
        first_match(snapshot.update(i, snapshot[j]).update(j, snapshot[i]), ids) == snapshot[j],
{
    lemma_first_match_at(snapshot, ids, i);
    let swapped = snapshot.update(i, snapshot[j]).update(j, snapshot[i]);
    assert(swapped[i] == snapshot[j]);
    assert forall|k: int| 0 <= k < i implies !is_target(#[trigger] swapped[k], ids) by {
        assert(swapped[k] == snapshot[k]);
    }
    lemma_first_match_at(swapped, ids, i);
}

/// Whether `id` is one of `ids`.
pub fn is_wanted(id: DeviceID, ids: &Vec<DeviceID>) -> (wanted: bool)
    ensures
        wanted == ids@.contains(id),
{
    let mut k: usize = 0;
    while k < ids.len()
        invariant
            k <= ids.len(),
            forall|j: int| 0 <= j < k ==> ids@[j] != id,
        decreases ids.len() - k,
    {
        if ids[k] == id {
            return true;
        }
        k += 1;
    }
    false
}

/// Looks through a listing, in enumeration order, for the first device that is one of
/// `ids`. Entries without a readable descriptor are passed over.
pub fn first_present(list: &Vec<Entry>, ids: &Vec<DeviceID>) -> (found: Option<DeviceID>)
    ensures
        found == first_match(list@, ids@),
        found is None <==> forall|i: int|
            0 <= i < list@.len() ==> !is_target(#[trigger] list@[i], ids@),
        found matches Some(id) ==> exists|i: int|
            0 <= i < list@.len() && #[trigger] list@[i] == Some(id) && ids@.contains(id)
                && forall|j: int| 0 <= j < i ==> !is_target(#[trigger] list@[j], ids@),
{
    let mut i: usize = 0;
    assert(list@.skip(0) == list@);
    while i < list.len()
        invariant
            i <= list.len(),
            first_match(list@, ids@) == first_match(list@.skip(i as int), ids@),
        decreases list.len() - i,
    {
        let ghost rest = list@.skip(i as int);
        assert(rest[0] == list@[i as int]);
        assert(rest.drop_first() == list@.skip(i + 1));
        match list[i] {
            Some(id) => {
                if is_wanted(id, ids) {
                    proof {
                        assert(is_target(rest[0], ids@));
                        lemma_first_match(list@, ids@);
                    }
                    return Some(id);
                }
            },
            None => {},
        }
        i += 1;
    }
    proof {
        lemma_first_match(list@, ids@);
    }
    None
}

/// Tells which of the wanted devices is connected: the first device of the listing, in
/// enumeration order, that is one of `ids`. A listing that could not be made holds no
/// device.
pub fn is_connected(devices: Enumeration, ids: &Vec<DeviceID>) -> (found: Option<DeviceID>)
    ensures
        found == present(enumeration_view(devices), ids@),
        devices is Err ==> found is None,
        devices matches Ok(list) ==> found == first_match(list@, ids@),
{
    match devices {
        Err(_) => None,
        Ok(list) => first_present(&list, ids),
    }
}

} // verus!
