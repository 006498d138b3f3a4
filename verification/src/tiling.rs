use crate::layout::{
    corner, last_fit, occupied, remainder, slot_index, strip_below, strip_right, texels_on,
    whole_pages, Atlas, Slot,
};
use crate::space::TexturePackerSpace;
use vstd::prelude::*;

verus! {

/// `last_fit` names the last rectangle that is large enough, and -1 exactly
/// when none is.
pub proof fn lemma_last_fit(free: Seq<TexturePackerSpace>, width: int, height: int)
    ensures
        -1 <= last_fit(free, width, height) < free.len(),
        last_fit(free, width, height) >= 0 ==> free[last_fit(free, width, height)].admits(
            width,
            height,
        ),
        forall|j: int|
            last_fit(free, width, height) < j < free.len() ==> !(#[trigger] free[j]).admits(
                width,
                height,
            ),
    decreases free.len(),
{
    if free.len() > 0 && !free.last().admits(width, height) {
        lemma_last_fit(free.drop_last(), width, height);
        assert forall|j: int| last_fit(free, width, height) < j < free.len() implies !(
        #[trigger] free[j]).admits(width, height) by {
            if j < free.len() - 1 {
                assert(free.drop_last()[j] == free[j]);
            }
        }
    }
}

/// The last rectangle that is large enough is what `last_fit` names.
pub proof fn lemma_last_fit_is(free: Seq<TexturePackerSpace>, width: int, height: int, i: int)
    requires
        -1 <= i < free.len(),
        i >= 0 ==> free[i].admits(width, height),
        forall|j: int| i < j < free.len() ==> !(#[trigger] free[j]).admits(width, height),
    ensures
        last_fit(free, width, height) == i,
{
    lemma_last_fit(free, width, height);
}

/// `slot_index` names the last slot of that name, and -1 exactly when there
/// is none.
pub proof fn lemma_slot_index(slots: Seq<Slot>, name: Seq<char>)
    ensures
        -1 <= slot_index(slots, name) < slots.len(),
        slot_index(slots, name) >= 0 ==> slots[slot_index(slots, name)].name == name,
        forall|m: int|
            slot_index(slots, name) < m < slots.len() ==> (#[trigger] slots[m]).name != name,
    decreases slots.len(),
{
    if slots.len() > 0 && slots.last().name != name {
        lemma_slot_index(slots.drop_last(), name);
        assert forall|m: int| slot_index(slots, name) < m < slots.len() implies (
        #[trigger] slots[m]).name != name by {
            if m < slots.len() - 1 {
                assert(slots.drop_last()[m] == slots[m]);
            }
        }
    }
}

/// The last slot that carries a name is the slot of that name.
pub proof fn lemma_slot_index_last(slots: Seq<Slot>, name: Seq<char>, k: int)
    requires
        -1 <= k < slots.len(),
        k >= 0 ==> slots[k].name == name,
        forall|m: int| k < m < slots.len() ==> (#[trigger] slots[m]).name != name,
    ensures
        slot_index(slots, name) == k,
{
    lemma_slot_index(slots, name);
    let found = slot_index(slots, name);
    if 0 <= found < k {
        assert(slots[k].name != name);
    } else if found > k {
        assert(slots[found].name != name);
    }
}

pub proof fn lemma_texels_on_push(spaces: Seq<TexturePackerSpace>, space: TexturePackerSpace, layer: int)
    ensures
        texels_on(spaces.push(space), layer) == texels_on(spaces, layer) + space.texels_at(layer),
{
    assert(spaces.push(space).drop_last() =~= spaces);
}

pub proof fn lemma_texels_on_concat(
    head: Seq<TexturePackerSpace>,
    tail: Seq<TexturePackerSpace>,
    layer: int,
)
    ensures
        texels_on(head + tail, layer) == texels_on(head, layer) + texels_on(tail, layer),
    decreases tail.len(),
{
    if tail.len() == 0 {
        assert(head + tail =~= head);
    } else {
        lemma_texels_on_concat(head, tail.drop_last(), layer);
        assert((head + tail).drop_last() =~= head + tail.drop_last());
    }
}

pub proof fn lemma_texels_on_nonnegative(spaces: Seq<TexturePackerSpace>, layer: int)
    ensures
        texels_on(spaces, layer) >= 0,
    decreases spaces.len(),
{
    if spaces.len() > 0 {
        lemma_texels_on_nonnegative(spaces.drop_last(), layer);
        let last = spaces.last();
        assert(last.width * last.height >= 0) by (nonlinear_arith)
            requires
                last.width >= 0,
                last.height >= 0,
        ;
    }
}

/// The rectangles at the front of a list have no more texels on a page than
/// the whole list.
pub proof fn lemma_texels_on_prefix(spaces: Seq<TexturePackerSpace>, count: int, layer: int)
    requires
        0 <= count <= spaces.len(),
    ensures
        0 <= texels_on(spaces.take(count), layer) <= texels_on(spaces, layer),
{
    assert(spaces =~= spaces.take(count) + spaces.skip(count));
    lemma_texels_on_concat(spaces.take(count), spaces.skip(count), layer);
    lemma_texels_on_nonnegative(spaces.take(count), layer);
    lemma_texels_on_nonnegative(spaces.skip(count), layer);
}

pub proof fn lemma_texels_on_split(spaces: Seq<TexturePackerSpace>, i: int, layer: int)
    requires
        0 <= i < spaces.len(),
    ensures
        texels_on(spaces, layer) == texels_on(spaces.take(i), layer) + spaces[i].texels_at(layer)
            + texels_on(spaces.skip(i + 1), layer),
{
    assert(spaces =~= spaces.take(i).push(spaces[i]) + spaces.skip(i + 1));
    lemma_texels_on_concat(spaces.take(i).push(spaces[i]), spaces.skip(i + 1), layer);
    lemma_texels_on_push(spaces.take(i), spaces[i], layer);
}

pub proof fn lemma_texels_on_remove(spaces: Seq<TexturePackerSpace>, i: int, layer: int)
    requires
        0 <= i < spaces.len(),
    ensures
        texels_on(spaces.remove(i), layer) == texels_on(spaces, layer) - spaces[i].texels_at(layer),
{
    lemma_texels_on_split(spaces, i, layer);
    assert(spaces.remove(i) =~= spaces.take(i) + spaces.skip(i + 1));
    lemma_texels_on_concat(spaces.take(i), spaces.skip(i + 1), layer);
}

/// A rectangle inside `outer` shares no texel with what `outer` shares none with.
pub proof fn lemma_inside_disjoint(
    inner: TexturePackerSpace,
    outer: TexturePackerSpace,
    other: TexturePackerSpace,
)
    requires
        inner.inside(outer),
        outer.disjoint(other),
    ensures
        inner.disjoint(other),
        other.disjoint(inner),
{
}

proof fn lemma_texels_on_pair(a: TexturePackerSpace, b: TexturePackerSpace, layer: int)
    ensures
        texels_on(Seq::empty(), layer) == 0,
        texels_on(seq![a], layer) == a.texels_at(layer),
        texels_on(seq![a, b], layer) == a.texels_at(layer) + b.texels_at(layer),
{
    let none = Seq::<TexturePackerSpace>::empty();
    assert(seq![a] =~= none.push(a));
    assert(seq![a, b] =~= none.push(a).push(b));
    lemma_texels_on_push(none, a, layer);
    lemma_texels_on_push(none.push(a), b, layer);
}

proof fn lemma_cut_sizes(sw: int, sh: int, w: int, h: int)
    by (nonlinear_arith)
    requires
        0 <= w <= sw,
        0 <= h <= sh,
    ensures
        w * h + (sw - w) * h == sw * h,
        w * h + w * (sh - h) == w * sh,
        w * h + (sw - w) * h + sw * (sh - h) == sw * sh,
        w * h + (sw - w) * sh + w * (sh - h) == sw * sh,
{
}

/// What a cut leaves: at most two strips. The item's corner and the strips
/// lie inside the rectangle that was cut and on its layer, share no texel
/// with one another, hold every texel of it between them, and have together
/// as many texels as it had. No strip is empty where the item is not.
pub proof fn lemma_remainder(space: TexturePackerSpace, width: u32, height: u32)
    requires
        space.admits(width as int, height as int),
        space.right() <= u32::MAX,
        space.bottom() <= u32::MAX,
    ensures
        remainder(space, width, height).len() <= 2,
        corner(space, width, height).inside(space),
        forall|i: int|
            0 <= i < remainder(space, width, height).len() ==> {
                let strip = #[trigger] remainder(space, width, height)[i];
                &&& strip.inside(space)
                &&& strip.disjoint(corner(space, width, height))
                &&& corner(space, width, height).disjoint(strip)
            },
        forall|i: int, j: int|
            0 <= i < remainder(space, width, height).len() && 0 <= j < remainder(
                space,
                width,
                height,
            ).len() && i != j ==> (#[trigger] remainder(space, width, height)[i]).disjoint(
                #[trigger] remainder(space, width, height)[j],
            ),
        forall|layer: int, px: int, py: int| #[trigger]
            space.covers(layer, px, py) ==> corner(space, width, height).covers(layer, px, py)
                || exists|i: int|
                0 <= i < remainder(space, width, height).len() && (#[trigger] remainder(
                    space,
                    width,
                    height,
                )[i]).covers(layer, px, py),
        forall|layer: int| #[trigger]
            space.texels_at(layer) == corner(space, width, height).texels_at(layer) + texels_on(
                remainder(space, width, height),
                layer,
            ),
        width >= 1 && height >= 1 ==> forall|i: int|
            0 <= i < remainder(space, width, height).len() ==> !(#[trigger] remainder(
                space,
                width,
                height,
            )[i]).is_empty(),
{
    let strips = remainder(space, width, height);
    let item = corner(space, width, height);
    let short = strip_right(space, width, height);
    let wide = strip_below(space, height, space.width);
    let tall = strip_right(space, width, space.height);
    let narrow = strip_below(space, height, width);
    lemma_cut_sizes(space.width as int, space.height as int, width as int, height as int);
    assert forall|layer: int| #[trigger]
        space.texels_at(layer) == item.texels_at(layer) + texels_on(strips, layer) by {
        lemma_texels_on_pair(short, wide, layer);
        lemma_texels_on_pair(wide, short, layer);
        lemma_texels_on_pair(tall, narrow, layer);
        lemma_texels_on_pair(narrow, tall, layer);
    }
    assert forall|layer: int, px: int, py: int| #[trigger]
        space.covers(layer, px, py) implies item.covers(layer, px, py) || exists|i: int|
        0 <= i < strips.len() && (#[trigger] strips[i]).covers(layer, px, py) by {
        if !item.covers(layer, px, py) {
            if strips.len() == 1 {
                assert(strips[0].covers(layer, px, py));
            } else if strips.len() == 2 {
                assert(strips[0].covers(layer, px, py) || strips[1].covers(layer, px, py));
            }
        }
    }
}

proof fn lemma_occupied_push(slots: Seq<Slot>, slot: Slot, layer: int)
    ensures
        texels_on(occupied(slots.push(slot)), layer) == texels_on(occupied(slots), layer)
            + slot.space.texels_at(layer),
{
    assert(occupied(slots.push(slot)) =~= occupied(slots).push(slot.space));
    lemma_texels_on_push(occupied(slots), slot.space, layer);
}

/// Placing an item leaves what every page accounts for as it is.
proof fn lemma_place_accounted(atlas: Atlas, name: Seq<char>, width: u32, height: u32, layer: int)
    requires
        atlas.sound(),
    ensures
        atlas.place(name, width, height).accounted(layer) == atlas.accounted(layer),
{
    if atlas.has_room(width, height) {
        let i = last_fit(atlas.free, width as int, height as int);
        lemma_last_fit(atlas.free, width as int, height as int);
        let space = atlas.free[i];
        let item = corner(space, width, height);
        let strips = remainder(space, width, height);
        assert(space.within(atlas.width as int, atlas.height as int, atlas.depth as int));
        lemma_remainder(space, width, height);
        assert(space.texels_at(layer) == item.texels_at(layer) + texels_on(strips, layer));
        lemma_texels_on_remove(atlas.free, i, layer);
        lemma_texels_on_concat(atlas.free.remove(i), strips, layer);
        lemma_occupied_push(atlas.slots, Slot { name, space: item }, layer);
    }
}

/// Trying a request keeps an atlas state sound.
pub proof fn lemma_place_sound(atlas: Atlas, name: Seq<char>, width: u32, height: u32)
    requires
        atlas.sound(),
    ensures
        atlas.place(name, width, height).sound(),
{
    if atlas.has_room(width, height) {
        let i = last_fit(atlas.free, width as int, height as int);
        lemma_last_fit(atlas.free, width as int, height as int);
        let next = atlas.place(name, width, height);
        let space = atlas.free[i];
        let item = corner(space, width, height);
        let strips = remainder(space, width, height);
        let kept = atlas.free.len() - 1;
        let count = atlas.slots.len() as int;
        assert(space.within(atlas.width as int, atlas.height as int, atlas.depth as int));
        lemma_remainder(space, width, height);
        // Every free rectangle of the next state is an old one other than the
        // one that was cut, or lies inside the one that was cut.
        assert forall|j: int| 0 <= j < next.free.len() implies ({
            let r = #[trigger] next.free[j];
            ||| (j < kept && r == atlas.free[if j < i { j } else { j + 1 }])
            ||| (j >= kept && r == strips[j - kept] && r.inside(space) && r.disjoint(item))
        }) by {
            if j >= kept {
                assert(next.free[j] == strips[j - kept]);
            }
        }
        // Every slot of the next state is an old one, or the item.
        assert forall|m: int| 0 <= m < next.slots.len() implies ({
            let slot = #[trigger] next.slots[m];
            ||| (m < count && slot == atlas.slots[m])
            ||| (m == count && slot.name == name && slot.space == item)
        }) by {}
        assert forall|j: int| 0 <= j < next.free.len() implies (#[trigger] next.free[j]).within(
            next.width as int,
            next.height as int,
            next.depth as int,
        ) by {
            if j < kept {
                assert(atlas.free[if j < i { j } else { j + 1 }].within(
                    atlas.width as int,
                    atlas.height as int,
                    atlas.depth as int,
                ));
            }
        }
        assert forall|m: int| 0 <= m < next.slots.len() implies (#[trigger] next.slots[m]).space.within(
            next.width as int,
            next.height as int,
            next.depth as int,
        ) by {
            if m < count {
                assert(atlas.slots[m].space.within(
                    atlas.width as int,
                    atlas.height as int,
                    atlas.depth as int,
                ));
            }
        }
        assert forall|a: int, b: int|
            0 <= a < next.free.len() && 0 <= b < next.free.len() && a != b implies (
        #[trigger] next.free[a]).disjoint(#[trigger] next.free[b]) by {
            let ra = next.free[a];
            let rb = next.free[b];
            let oa = if a < i { a } else { a + 1 };
            let ob = if b < i { b } else { b + 1 };
            if a < kept && b < kept {
                assert(atlas.free[oa].disjoint(atlas.free[ob]));
            } else if a < kept {
                assert(space.disjoint(atlas.free[oa]));
                lemma_inside_disjoint(rb, space, atlas.free[oa]);
            } else if b < kept {
                assert(space.disjoint(atlas.free[ob]));
                lemma_inside_disjoint(ra, space, atlas.free[ob]);
            } else {
                assert(strips[a - kept].disjoint(strips[b - kept]));
            }
        }
        assert forall|a: int, m: int|
            0 <= a < next.free.len() && 0 <= m < next.slots.len() implies (
        #[trigger] next.free[a]).disjoint((#[trigger] next.slots[m]).space) by {
            let ra = next.free[a];
            let oa = if a < i { a } else { a + 1 };
            if m < count {
                if a < kept {
                    assert(atlas.free[oa].disjoint(atlas.slots[m].space));
                } else {
                    assert(space.disjoint(atlas.slots[m].space));
                    lemma_inside_disjoint(ra, space, atlas.slots[m].space);
                }
            } else {
                if a < kept {
                    assert(space.disjoint(atlas.free[oa]));
                    lemma_inside_disjoint(item, space, atlas.free[oa]);
                }
            }
        }
        assert forall|m: int, n: int|
            0 <= m < next.slots.len() && 0 <= n < next.slots.len() && m != n implies (
        #[trigger] next.slots[m]).space.disjoint((#[trigger] next.slots[n]).space) by {
            if m < count && n < count {
                assert(atlas.slots[m].space.disjoint(atlas.slots[n].space));
            } else if m < count {
                assert(space.disjoint(atlas.slots[m].space));
                lemma_inside_disjoint(item, space, atlas.slots[m].space);
            } else if n < count {
                assert(space.disjoint(atlas.slots[n].space));
                lemma_inside_disjoint(item, space, atlas.slots[n].space);
            }
        }
        assert forall|layer: int| 0 <= layer < next.depth implies #[trigger] next.accounted(layer)
            <= next.page_texels() by {
            lemma_place_accounted(atlas, name, width, height, layer);
            assert(atlas.accounted(layer) <= atlas.page_texels());
        }
    }
}

/// What a request with room does to the free list and the slots: the
/// rectangle that was cut leaves the free list, the other free rectangles
/// keep their values and their order, the strips that the cut leaves follow
/// them, and the item is the newest slot.
pub proof fn lemma_place_cut(atlas: Atlas, name: Seq<char>, width: u32, height: u32)
    requires
        atlas.has_room(width, height),
    ensures
        ({
            let i = last_fit(atlas.free, width as int, height as int);
            let strips = remainder(atlas.free[i], width, height);
            let next = atlas.place(name, width, height);
            &&& 0 <= i < atlas.free.len()
            &&& atlas.free[i].admits(width as int, height as int)
            &&& next.free.len() == atlas.free.len() - 1 + strips.len()
            &&& forall|j: int| 0 <= j < i ==> #[trigger] next.free[j] == atlas.free[j]
            &&& forall|j: int| i <= j < atlas.free.len() - 1 ==> #[trigger] next.free[j] == atlas.free[j + 1]
            &&& forall|n: int|
                0 <= n < strips.len() ==> #[trigger] next.free[atlas.free.len() - 1 + n] == strips[n]
            &&& next.slots == atlas.slots.push(
                Slot { name, space: corner(atlas.free[i], width, height) },
            )
            &&& next.pending == atlas.pending
        }),
{
    lemma_last_fit(atlas.free, width as int, height as int);
}

/// Trying a request keeps the pages tiled.
pub proof fn lemma_place_tiled(atlas: Atlas, name: Seq<char>, width: u32, height: u32)
    requires
        atlas.tiled(),
    ensures
        atlas.place(name, width, height).tiled(),
{
    lemma_place_sound(atlas, name, width, height);
    if atlas.has_room(width, height) {
        let i = last_fit(atlas.free, width as int, height as int);
        lemma_last_fit(atlas.free, width as int, height as int);
        let next = atlas.place(name, width, height);
        let space = atlas.free[i];
        let item = corner(space, width, height);
        let strips = remainder(space, width, height);
        let kept = atlas.free.len() - 1;
        assert(space.within(atlas.width as int, atlas.height as int, atlas.depth as int));
        lemma_remainder(space, width, height);
        assert(next.slots[atlas.slots.len() as int].space == item);
        assert forall|layer: int, px: int, py: int|
            0 <= layer < next.depth && 0 <= px < next.width && 0 <= py
                < next.height implies #[trigger] next.holds(layer, px, py) by {
            assert(atlas.holds(layer, px, py));
            if exists|j: int| 0 <= j < atlas.free.len() && #[trigger] atlas.free[j].covers(layer, px, py) {
                let j = choose|j: int| 0 <= j < atlas.free.len() && #[trigger] atlas.free[j].covers(layer, px, py);
                if j == i {
                    assert(space.covers(layer, px, py));
                    if item.covers(layer, px, py) {
                        assert(next.slots[atlas.slots.len() as int].space.covers(layer, px, py));
                    } else {
                        let n = choose|n: int| 0 <= n < strips.len() && (#[trigger] strips[n]).covers(layer, px, py);
                        assert(next.free[kept + n] == strips[n]);
                        assert(next.free[kept + n].covers(layer, px, py));
                    }
                } else {
                    let to = if j < i { j } else { j - 1 };
                    assert(next.free[to] == atlas.free[j]);
                    assert(next.free[to].covers(layer, px, py));
                }
            } else {
                let k = choose|k: int| 0 <= k < atlas.slots.len() && #[trigger] atlas.slots[k].space.covers(layer, px, py);
                assert(next.slots[k] == atlas.slots[k]);
                assert(next.slots[k].space.covers(layer, px, py));
            }
        }
        assert forall|layer: int| 0 <= layer < next.depth implies #[trigger] next.accounted(layer)
            == next.page_texels() by {
            lemma_place_accounted(atlas, name, width, height, layer);
            assert(atlas.accounted(layer) == atlas.page_texels());
        }
    }
}

/// An atlas in which nothing is placed is tiled by its whole pages.
pub proof fn lemma_blank_tiled(width: u32, height: u32, depth: u32)
    ensures
        Atlas::blank(width, height, depth).tiled(),
{
    let atlas = Atlas::blank(width, height, depth);
    assert(occupied(atlas.slots) =~= Seq::empty());
    assert forall|layer: int, px: int, py: int|
        0 <= layer < atlas.depth && 0 <= px < atlas.width && 0 <= py
            < atlas.height implies #[trigger] atlas.holds(layer, px, py) by {
        assert(atlas.free[layer].covers(layer, px, py));
    }
    assert forall|layer: int| 0 <= layer < atlas.depth implies #[trigger] atlas.accounted(layer)
        == atlas.page_texels() by {
        lemma_whole_pages_texels(width, height, depth as nat, layer);
    }
}

proof fn lemma_whole_pages_texels(width: u32, height: u32, count: nat, layer: int)
    requires
        count <= u32::MAX,
    ensures
        texels_on(whole_pages(width, height, count), layer) == if 0 <= layer < count {
            width * height
        } else {
            0
        },
    decreases count,
{
    if count > 0 {
        let fewer = (count - 1) as nat;
        lemma_whole_pages_texels(width, height, fewer, layer);
        assert(whole_pages(width, height, count).drop_last() =~= whole_pages(width, height, fewer));
    }
}

/// Whether the pages are tiled depends on the pages, the free rectangles and
/// the placed items alone, not on what is queued.
pub proof fn lemma_tiled_by_layout(atlas: Atlas, other: Atlas)
    requires
        atlas.tiled(),
        other.width == atlas.width,
        other.height == atlas.height,
        other.depth == atlas.depth,
        other.free == atlas.free,
        other.slots == atlas.slots,
    ensures
        other.tiled(),
{
    assert forall|layer: int, px: int, py: int|
        0 <= layer < other.depth && 0 <= px < other.width && 0 <= py
            < other.height implies #[trigger] other.holds(layer, px, py) by {
        assert(atlas.holds(layer, px, py));
    }
    assert forall|layer: int| 0 <= layer < other.depth implies #[trigger] other.accounted(layer)
        == other.page_texels() by {
        assert(atlas.accounted(layer) == atlas.page_texels());
    }
    assert forall|layer: int| 0 <= layer < other.depth implies #[trigger] other.accounted(layer)
        <= other.page_texels() by {
        assert(atlas.accounted(layer) == atlas.page_texels());
    }
}

} // verus!
