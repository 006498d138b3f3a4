use crate::layout::{last_fit, remainder, Atlas, Request};
use crate::order::{descending, largest_first, lemma_largest_first, lemma_largest_first_settled};
use crate::packing::{lemma_place_each_frame, lemma_place_each_sound, lemma_rejected_tried};
use crate::tiling::{lemma_last_fit, lemma_last_fit_is, lemma_remainder};
use vstd::prelude::*;

verus! {

/// Placing an item makes room for nothing that had no room before.
pub proof fn lemma_no_room_stays(
    atlas: Atlas,
    name: Seq<char>,
    width: u32,
    height: u32,
    other_width: u32,
    other_height: u32,
)
    requires
        atlas.sound(),
        !atlas.has_room(other_width, other_height),
    ensures
        !atlas.place(name, width, height).has_room(other_width, other_height),
{
    if atlas.has_room(width, height) {
        let i = last_fit(atlas.free, width as int, height as int);
        lemma_last_fit(atlas.free, width as int, height as int);
        lemma_last_fit(atlas.free, other_width as int, other_height as int);
        let space = atlas.free[i];
        let strips = remainder(space, width, height);
        let next = atlas.place(name, width, height);
        let kept = atlas.free.len() - 1;
        assert(space.within(atlas.width as int, atlas.height as int, atlas.depth as int));
        lemma_remainder(space, width, height);
        assert forall|j: int| 0 <= j < next.free.len() implies !(#[trigger] next.free[j]).admits(
            other_width as int,
            other_height as int,
        ) by {
            if j < kept {
                let from = if j < i { j } else { j + 1 };
                assert(next.free[j] == atlas.free[from]);
                assert(!atlas.free[from].admits(other_width as int, other_height as int));
            } else {
                assert(next.free[j] == strips[j - kept]);
                assert(strips[j - kept].inside(space));
                assert(!space.admits(other_width as int, other_height as int));
            }
        }
        lemma_last_fit_is(next.free, other_width as int, other_height as int, -1);
    }
}

/// A request that found no room has no room in the state that the tried
/// requests leave.
pub proof fn lemma_rejected_stay_rejected(atlas: Atlas, requests: Seq<Request>, k: int)
    requires
        atlas.sound(),
        0 <= k < atlas.place_each(requests).1.len(),
    ensures
        !atlas.place_each(requests).0.has_room(
            atlas.place_each(requests).1[k].width,
            atlas.place_each(requests).1[k].height,
        ),
    decreases requests.len(),
{
    let fewer = requests.drop_last();
    let last = requests.last();
    let before = atlas.place_each(fewer).0;
    lemma_place_each_sound(atlas, fewer);
    if k < atlas.place_each(fewer).1.len() {
        lemma_rejected_stay_rejected(atlas, fewer, k);
        let other = atlas.place_each(fewer).1[k];
        lemma_no_room_stays(
            before,
            last.name,
            last.width,
            last.height,
            other.width,
            other.height,
        );
    }
}

/// Requests of which none has room leave the state as it is and are all
/// rejected.
pub proof fn lemma_all_rejected(atlas: Atlas, requests: Seq<Request>)
    requires
        forall|i: int|
            0 <= i < requests.len() ==> !atlas.has_room(
                (#[trigger] requests[i]).width,
                requests[i].height,
            ),
    ensures
        atlas.place_each(requests) == (atlas, requests),
    decreases requests.len(),
{
    if requests.len() > 0 {
        let fewer = requests.drop_last();
        assert forall|i: int| 0 <= i < fewer.len() implies !atlas.has_room(
            (#[trigger] fewer[i]).width,
            fewer[i].height,
        ) by {
            assert(fewer[i] == requests[i]);
        }
        lemma_all_rejected(atlas, fewer);
        let last = requests[requests.len() - 1];
        assert(!atlas.has_room(last.width, last.height));
        assert(fewer.push(requests.last()) =~= requests);
    } else {
        assert(requests =~= Seq::<Request>::empty());
    }
}

/// The rejected requests of an ordered queue are ordered.
pub proof fn lemma_rejected_descending(atlas: Atlas, requests: Seq<Request>)
    requires
        descending(requests),
    ensures
        descending(atlas.place_each(requests).1),
{
    let rejected = atlas.place_each(requests).1;
    assert forall|a: int, b: int| 0 <= a < b < rejected.len() implies (#[trigger] rejected[a]).texels()
        >= (#[trigger] rejected[b]).texels() by {
        lemma_rejected_order(atlas, requests, a, b);
    }
}

/// Two rejected requests were tried in the order in which they are listed.
proof fn lemma_rejected_order(atlas: Atlas, requests: Seq<Request>, a: int, b: int)
    requires
        descending(requests),
        0 <= a < b < atlas.place_each(requests).1.len(),
    ensures
        atlas.place_each(requests).1[a].texels() >= atlas.place_each(requests).1[b].texels(),
    decreases requests.len(),
{
    let fewer = requests.drop_last();
    lemma_place_each_frame(atlas, fewer);
    assert forall|i: int, j: int| 0 <= i < j < fewer.len() implies (#[trigger] fewer[i]).texels() >= (
    #[trigger] fewer[j]).texels() by {
        assert(fewer[i] == requests[i] && fewer[j] == requests[j]);
    }
    if b < atlas.place_each(fewer).1.len() {
        lemma_rejected_order(atlas, fewer, a, b);
    } else {
        let i = lemma_rejected_tried(atlas, fewer, a);
        assert(fewer[i] == requests[i]);
        assert(requests[i].texels() >= requests[requests.len() - 1].texels());
    }
}

/// Packing again places nothing more: a second `pack` right after the first
/// leaves the state as the first left it and rejects the same requests. Room
/// for what stayed queued comes from a reset alone.
pub proof fn lemma_pack_settles(atlas: Atlas)
    requires
        atlas.sound(),
    ensures
        atlas.packed().packed() == atlas.packed(),
        atlas.packed().rejected() == atlas.rejected(),
        atlas.packed().unplaced() == atlas.unplaced(),
{
    let order = largest_first(atlas.pending);
    let after = atlas.place_each(order).0;
    let rest = atlas.rejected();
    let next = atlas.packed();
    lemma_largest_first(atlas.pending);
    lemma_place_each_frame(atlas, order);
    lemma_place_each_sound(atlas, order);
    lemma_rejected_descending(atlas, order);
    lemma_largest_first_settled(rest);
    assert forall|k: int| 0 <= k < rest.len() implies !next.has_room(
        (#[trigger] rest[k]).width,
        rest[k].height,
    ) by {
        lemma_rejected_stay_rejected(atlas, order, k);
        assert(next.free == after.free && next.slots == after.slots);
    }
    lemma_all_rejected(next, rest);
}

} // verus!
