use crate::layout::{names, Atlas, Request};
use crate::order::largest_first;
use crate::tiling::{lemma_place_sound, lemma_place_tiled, lemma_tiled_by_layout};
use vstd::prelude::*;

verus! {

/// Trying requests touches nothing but the free rectangles and the slots, and
/// rejects no more requests than were tried.
pub proof fn lemma_place_each_frame(atlas: Atlas, requests: Seq<Request>)
    ensures
        atlas.place_each(requests).0.width == atlas.width,
        atlas.place_each(requests).0.height == atlas.height,
        atlas.place_each(requests).0.depth == atlas.depth,
        atlas.place_each(requests).0.pending == atlas.pending,
        atlas.place_each(requests).1.len() <= requests.len(),
    decreases requests.len(),
{
    if requests.len() > 0 {
        lemma_place_each_frame(atlas, requests.drop_last());
    }
}

/// Trying requests keeps an atlas state sound.
pub proof fn lemma_place_each_sound(atlas: Atlas, requests: Seq<Request>)
    requires
        atlas.sound(),
    ensures
        atlas.place_each(requests).0.sound(),
    decreases requests.len(),
{
    if requests.len() > 0 {
        lemma_place_each_sound(atlas, requests.drop_last());
        let before = atlas.place_each(requests.drop_last()).0;
        let request = requests.last();
        lemma_place_sound(before, request.name, request.width, request.height);
    }
}

/// Trying requests keeps the pages tiled, whatever the requests are.
pub proof fn lemma_place_each_tiled(atlas: Atlas, requests: Seq<Request>)
    requires
        atlas.tiled(),
    ensures
        atlas.place_each(requests).0.tiled(),
    decreases requests.len(),
{
    if requests.len() > 0 {
        lemma_place_each_tiled(atlas, requests.drop_last());
        let before = atlas.place_each(requests.drop_last()).0;
        let request = requests.last();
        lemma_place_tiled(before, request.name, request.width, request.height);
    }
}

/// Every request that was rejected is one of those that were tried.
pub proof fn lemma_rejected_tried(atlas: Atlas, requests: Seq<Request>, k: int) -> (i: int)
    requires
        0 <= k < atlas.place_each(requests).1.len(),
    ensures
        0 <= i < requests.len(),
        requests[i] == atlas.place_each(requests).1[k],
        k <= i,
    decreases requests.len(),
{
    let fewer = requests.drop_last();
    lemma_place_each_frame(atlas, fewer);
    if k < atlas.place_each(fewer).1.len() {
        let i = lemma_rejected_tried(atlas, fewer, k);
        assert(fewer[i] == requests[i]);
        i
    } else {
        requests.len() - 1
    }
}

/// Packing keeps the pages tiled, whether it places every request or not, and
/// leaves the size and the number of the pages as they are.
pub proof fn lemma_packed_tiled(atlas: Atlas)
    requires
        atlas.tiled(),
    ensures
        atlas.packed().tiled(),
        atlas.packed().width == atlas.width,
        atlas.packed().height == atlas.height,
        atlas.packed().depth == atlas.depth,
        atlas.packed().pending.len() <= atlas.pending.len(),
        atlas.unplaced().len() == atlas.packed().pending.len(),
{
    let order = largest_first(atlas.pending);
    lemma_place_each_tiled(atlas, order);
    lemma_place_each_frame(atlas, order);
    crate::order::lemma_largest_first(atlas.pending);
    lemma_tiled_by_layout(atlas.place_each(order).0, atlas.packed());
}

/// With nothing queued, packing changes nothing and leaves nothing unplaced.
pub proof fn lemma_pack_nothing(atlas: Atlas)
    requires
        atlas.pending.len() == 0,
    ensures
        atlas.packed() == atlas,
        atlas.unplaced().len() == 0,
{
    assert(atlas.packed().pending =~= atlas.pending);
    assert(names(atlas.rejected()) =~= Seq::<Seq<char>>::empty());
}

/// Clearing an atlas leaves its pages tiled by one free rectangle each.
pub proof fn lemma_cleared_tiled(atlas: Atlas)
    ensures
        atlas.cleared().tiled(),
{
    crate::tiling::lemma_blank_tiled(atlas.width, atlas.height, atlas.depth);
    lemma_tiled_by_layout(Atlas::blank(atlas.width, atlas.height, atlas.depth), atlas.cleared());
}

} // verus!
