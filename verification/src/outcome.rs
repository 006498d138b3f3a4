use crate::layout::{Atlas, Request};
use crate::order::{distinct_names, largest_first, lemma_largest_first_distinct, lemma_largest_first_members};
use crate::packing::{lemma_packed_tiled, lemma_rejected_tried};
use crate::tiling::{lemma_last_fit, lemma_slot_index};
use vstd::prelude::*;

verus! {

/// Trying a request under another name leaves what is looked up under `name`
/// as it is.
pub proof fn lemma_place_keeps(atlas: Atlas, tried: Request, name: Seq<char>)
    requires
        tried.name != name,
    ensures
        atlas.place(tried.name, tried.width, tried.height).lookup(name) == atlas.lookup(name),
{
    if atlas.has_room(tried.width, tried.height) {
        let next = atlas.place(tried.name, tried.width, tried.height);
        lemma_slot_index(atlas.slots, name);
        assert(next.slots.drop_last() =~= atlas.slots);
    }
}

/// Trying requests under other names leaves what is looked up under `name`
/// as it is.
pub proof fn lemma_place_each_keeps(atlas: Atlas, requests: Seq<Request>, name: Seq<char>)
    requires
        forall|j: int| 0 <= j < requests.len() ==> (#[trigger] requests[j]).name != name,
    ensures
        atlas.place_each(requests).0.lookup(name) == atlas.lookup(name),
    decreases requests.len(),
{
    if requests.len() > 0 {
        let fewer = requests.drop_last();
        assert forall|j: int| 0 <= j < fewer.len() implies (#[trigger] fewer[j]).name != name by {
            assert(fewer[j] == requests[j]);
        }
        lemma_place_each_keeps(atlas, fewer, name);
        assert(requests[requests.len() - 1].name != name);
        lemma_place_keeps(atlas.place_each(fewer).0, requests.last(), name);
    }
}

/// A request that found room, and whose name no other request carries, is
/// looked up under its name at a rectangle of the size it asked for,
/// whatever became of the requests around it.
pub proof fn lemma_accepted_registered(atlas: Atlas, requests: Seq<Request>, i: int)
    requires
        0 <= i < requests.len(),
        !atlas.place_each(requests).1.contains(requests[i]),
        forall|j: int|
            0 <= j < requests.len() && j != i ==> (#[trigger] requests[j]).name != requests[i].name,
    ensures
        atlas.place_each(requests).0.lookup(requests[i].name) matches Some(space) && space.width
            == requests[i].width && space.height == requests[i].height,
    decreases requests.len(),
{
    let fewer = requests.drop_last();
    let last = requests.last();
    let before = atlas.place_each(fewer).0;
    let some = atlas.place_each(fewer).1;
    let all = atlas.place_each(requests).1;
    let after = atlas.place_each(requests).0;
    let request = requests[i];
    if i < requests.len() - 1 {
        assert(fewer[i] == request);
        assert(requests[requests.len() - 1].name != request.name);
        if some.contains(request) {
            let k = choose|k: int| 0 <= k < some.len() && some[k] == request;
            assert(all[k] == request);
        }
        assert forall|j: int| 0 <= j < fewer.len() && j != i implies (#[trigger] fewer[j]).name
            != fewer[i].name by {
            assert(fewer[j] == requests[j]);
        }
        lemma_accepted_registered(atlas, fewer, i);
        lemma_place_keeps(before, last, request.name);
    } else {
        if !before.has_room(last.width, last.height) {
            assert(all[all.len() - 1] == request);
        }
        lemma_last_fit(before.free, last.width as int, last.height as int);
        assert(after.slots.drop_last() =~= before.slots);
    }
}

/// A request that found no room, whose name no other request carries and
/// under which nothing was placed before, has nothing placed under its name
/// afterwards.
pub proof fn lemma_rejected_not_registered(atlas: Atlas, requests: Seq<Request>, i: int)
    requires
        0 <= i < requests.len(),
        atlas.place_each(requests).1.contains(requests[i]),
        !atlas.is_placed(requests[i].name),
        forall|j: int|
            0 <= j < requests.len() && j != i ==> (#[trigger] requests[j]).name != requests[i].name,
    ensures
        !atlas.place_each(requests).0.is_placed(requests[i].name),
    decreases requests.len(),
{
    let fewer = requests.drop_last();
    let last = requests.last();
    let before = atlas.place_each(fewer).0;
    let some = atlas.place_each(fewer).1;
    let all = atlas.place_each(requests).1;
    let name = requests[i].name;
    if i < requests.len() - 1 {
        assert(fewer[i] == requests[i]);
        assert(requests[requests.len() - 1].name != name);
        let k = choose|k: int| 0 <= k < all.len() && all[k] == requests[i];
        assert(k < some.len() && some[k] == requests[i]);
        assert forall|j: int| 0 <= j < fewer.len() && j != i implies (#[trigger] fewer[j]).name
            != fewer[i].name by {
            assert(fewer[j] == requests[j]);
        }
        lemma_rejected_not_registered(atlas, fewer, i);
        lemma_place_keeps(before, last, name);
    } else {
        assert forall|j: int| 0 <= j < fewer.len() implies (#[trigger] fewer[j]).name != name by {
            assert(fewer[j] == requests[j]);
        }
        lemma_place_each_keeps(atlas, fewer, name);
        if before.has_room(last.width, last.height) {
            // Then the request is among those rejected before, which carry other names.
            let k = choose|k: int| 0 <= k < all.len() && all[k] == requests[i];
            let j = lemma_rejected_tried(atlas, fewer, k);
            assert(fewer[j] == requests[j]);
        }
    }
}

/// What packing does to a queued request, where the queued requests differ
/// in name: one that found room is looked up under its name at a rectangle
/// of the size it asked for. This holds of each request by itself, whether
/// the others found room or not, and the pages stay tiled either way.
pub proof fn lemma_pack_registers(atlas: Atlas, i: int)
    requires
        atlas.tiled(),
        distinct_names(atlas.pending),
        0 <= i < atlas.pending.len(),
        !atlas.rejected().contains(atlas.pending[i]),
    ensures
        atlas.packed().tiled(),
        atlas.packed().lookup(atlas.pending[i].name) matches Some(space) && space.width
            == atlas.pending[i].width && space.height == atlas.pending[i].height,
{
    let order = largest_first(atlas.pending);
    lemma_packed_tiled(atlas);
    lemma_largest_first_members(atlas.pending);
    lemma_largest_first_distinct(atlas.pending);
    assert(order.contains(atlas.pending[i]));
    let j = choose|j: int| 0 <= j < order.len() && order[j] == atlas.pending[i];
    lemma_accepted_registered(atlas, order, j);
}

/// Where packing finds room for every request and the queued requests differ
/// in name, nothing stays queued and every queued request is looked up under
/// its name at a rectangle of the size it asked for. The pages are tiled: no
/// two rectangles share a texel.
pub proof fn lemma_pack_places_all(atlas: Atlas, i: int)
    requires
        atlas.tiled(),
        distinct_names(atlas.pending),
        atlas.unplaced().len() == 0,
        0 <= i < atlas.pending.len(),
    ensures
        atlas.packed().tiled(),
        atlas.packed().pending.len() == 0,
        atlas.packed().lookup(atlas.pending[i].name) matches Some(space) && space.width
            == atlas.pending[i].width && space.height == atlas.pending[i].height,
{
    assert(atlas.rejected().len() == 0);
    lemma_pack_registers(atlas, i);
}

/// Packing leaves what is looked up under a name as it is, where no queued
/// request carries that name.
pub proof fn lemma_pack_keeps(atlas: Atlas, name: Seq<char>)
    requires
        forall|j: int| 0 <= j < atlas.pending.len() ==> (#[trigger] atlas.pending[j]).name != name,
    ensures
        atlas.packed().lookup(name) == atlas.lookup(name),
{
    let order = largest_first(atlas.pending);
    lemma_largest_first_members(atlas.pending);
    assert forall|j: int| 0 <= j < order.len() implies (#[trigger] order[j]).name != name by {
        assert(atlas.pending.contains(order[j]));
        let m = choose|m: int| 0 <= m < atlas.pending.len() && atlas.pending[m] == order[j];
        assert(atlas.pending[m].name != name);
    }
    lemma_place_each_keeps(atlas, order, name);
}

} // verus!
