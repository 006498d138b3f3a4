use crate::layout::{
    corner, last_fit, names, occupied, remainder, slot_index, texels_on, whole_pages, Atlas,
    Request, Slot,
};
use crate::order::{largest_first, lemma_landing_is, lemma_largest_first};
use crate::outside::{hash_name, name_hash, random_word};
use crate::packing::{lemma_cleared_tiled, lemma_pack_nothing, lemma_packed_tiled};
use crate::pixels::{
    bytes_of, channel, clear_pages, copy_into, paint_spaces, painted, sampled,
};
use crate::space::TexturePackerSpace;
use crate::tiling::{
    lemma_remainder,
    lemma_blank_tiled, lemma_last_fit_is, lemma_place_tiled, lemma_slot_index_last,
    lemma_texels_on_nonnegative, lemma_texels_on_prefix,
    lemma_tiled_by_layout,
};
use vstd::prelude::*;

verus! {

/// A placed item: the rectangle that was assigned to a name.
pub struct AtlasEntry {
    name: String,
    space: TexturePackerSpace,
}

impl View for AtlasEntry {
    type V = Slot;

    closed spec fn view(&self) -> Slot {
        Slot { name: self.name@, space: self.space }
    }
}

/// A queued request: a name and the size asked for it.
pub struct PendingItem {
    name: String,
    width: u32,
    height: u32,
}

impl View for PendingItem {
    type V = Request;

    closed spec fn view(&self) -> Request {
        Request { name: self.name@, width: self.width, height: self.height }
    }
}

impl PendingItem {
    /// Number of texels the request asks for.
    fn area(&self) -> (a: u64)
        ensures
            a == self@.texels(),
    {
        assert(self.width * self.height <= 0xFFFF_FFFF * 0xFFFF_FFFF) by (nonlinear_arith)
            requires
                self.width <= 0xFFFF_FFFF,
                self.height <= 0xFFFF_FFFF,
        ;
        (self.width as u64) * (self.height as u64)
    }

    /// A second copy of the request.
    fn duplicate(&self) -> (copy: PendingItem)
        ensures
            copy@ == self@,
    {
        PendingItem { name: self.name.clone(), width: self.width, height: self.height }
    }
}

/// Why a `pack` did not place everything: the names of the requests that
/// found no room, in the order in which they were tried, and how many
/// requests were tried.
#[derive(Debug)]
pub struct PackError {
    pub unplaced: Vec<String>,
    pub attempted: usize,
}

/// The names that a list of strings stands for.
pub open spec fn names_of(names: Seq<String>) -> Seq<Seq<char>> {
    Seq::new(names.len(), |i: int| names[i]@)
}

/// The slots that a list of entries stands for.
pub closed spec fn slots_of(entries: Seq<AtlasEntry>) -> Seq<Slot> {
    Seq::new(entries.len(), |k: int| entries[k]@)
}

/// The requests that a list of queued items stands for.
pub closed spec fn requests_of(items: Seq<PendingItem>) -> Seq<Request> {
    Seq::new(items.len(), |i: int| items[i]@)
}

/// The colour that marks the item registered under `name`: the low 32 bits
/// of the hash of the name, made opaque.
pub open spec fn tint_of(name: Seq<char>) -> u32 {
    (name_hash(name) as u32) | 0xFFu32
}

/// The colours that mark the items of `slots`, slot by slot.
pub open spec fn tints_of(slots: Seq<Slot>) -> Seq<u32> {
    Seq::new(slots.len(), |k: int| tint_of(slots[k].name))
}

/// Every colour of the list is fully opaque: its last byte is 255.
pub open spec fn opaque(colors: Seq<u32>) -> bool {
    forall|i: int| 0 <= i < colors.len() ==> #[trigger] colors[i] & 0xFF == 0xFF
}

/// Pages of `count` layers on which every byte is zero.
pub open spec fn blank_pages(count: nat, size: nat) -> Seq<Seq<u8>> {
    Seq::new(count, |l: int| Seq::new(size, |i: int| 0u8))
}

/// A texture atlas of `depth` pages of `width` by `height` RGBA texels, with
/// a guillotine allocator that cuts named rectangles out of the pages.
pub struct TexturePacker {
    width: u32,
    height: u32,
    depth: u32,
    layers: Vec<Vec<u8>>,
    spaces: Vec<TexturePackerSpace>,
    registered: Vec<AtlasEntry>,
    to_add: Vec<PendingItem>,
}

impl View for TexturePacker {
    type V = Atlas;

    closed spec fn view(&self) -> Atlas {
        Atlas {
            width: self.width,
            height: self.height,
            depth: self.depth,
            free: self.spaces@,
            slots: slots_of(self.registered@),
            pending: requests_of(self.to_add@),
        }
    }
}

impl TexturePacker {
    /// The bytes of the pages, page by page: four bytes for each texel, row
    /// after row.
    pub closed spec fn pages(&self) -> Seq<Seq<u8>> {
        Seq::new(self.layers@.len(), |l: int| self.layers@[l]@)
    }

    /// What every packer satisfies: the free rectangles and the placed items
    /// tile every page, a page is small enough to be addressed, and there is
    /// one buffer of the right size for every page.
    pub open spec fn wf(&self) -> bool {
        &&& self@.tiled()
        &&& self@.width * self@.height * 4 <= u32::MAX
        &&& self.pages().len() == self@.depth
        &&& forall|l: int|
            0 <= l < self.pages().len() ==> (#[trigger] self.pages()[l]).len() == self@.width
                * self@.height * 4
    }

    /// Makes an atlas of `layer_count` blank pages with nothing placed or
    /// queued.
    pub fn new(width: u32, height: u32, layer_count: u32) -> (made: Result<Self, String>)
        requires
            width * height * 4 <= u32::MAX,
        ensures
            made is Ok,
            made->Ok_0.wf(),
            made->Ok_0@ == Atlas::blank(width, height, layer_count),
            forall|l: int, i: int|
                0 <= l < layer_count && 0 <= i < width * height * 4 ==> #[trigger] made->Ok_0.pages()[l][i]
                    == 0,
    {
        assert(width * height <= width * height * 4) by (nonlinear_arith)
            requires
                width >= 0,
                height >= 0,
        ;
        let size: usize = (width as usize) * (height as usize) * 4;
        let mut layers: Vec<Vec<u8>> = Vec::new();
        let mut spaces: Vec<TexturePackerSpace> = Vec::new();
        let mut i: u32 = 0;
        while i < layer_count
            invariant
                i <= layer_count,
                size == width * height * 4,
                layers@.len() == i,
                spaces@ == whole_pages(width, height, i as nat),
                forall|l: int| 0 <= l < i ==> (#[trigger] layers@[l])@.len() == size,
                forall|l: int, b: int| 0 <= l < i && 0 <= b < size ==> #[trigger] layers@[l]@[b] == 0,
            decreases layer_count - i,
        {
            layers.push(vec![0u8; size]);
            spaces.push(TexturePackerSpace { x: 0, y: 0, width, height, layer: i });
            assert(spaces@ =~= whole_pages(width, height, (i + 1) as nat));
            i += 1;
        }
        let packer = TexturePacker {
            width,
            height,
            depth: layer_count,
            layers,
            spaces,
            registered: Vec::new(),
            to_add: Vec::new(),
        };
        proof {
            lemma_blank_tiled(width, height, layer_count);
            assert(packer@.slots =~= Seq::empty());
            assert(packer@.pending =~= Seq::empty());
            assert(packer@ == Atlas::blank(width, height, layer_count));
        }
        Ok(packer)
    }

    /// Forgets every placed item: each page is one free rectangle again.
    /// What is queued stays queued, so that the next `pack` tries it on the
    /// freed pages. The bytes of the pages stay as they are.
    pub fn reset(&mut self)
        requires
            old(self).wf(),
        ensures
            final(self).wf(),
            final(self)@ == old(self)@.cleared(),
            final(self).pages() == old(self).pages(),
    {
        self.spaces.clear();
        let mut i: u32 = 0;
        while i < self.depth
            invariant
                i <= self.depth,
                self.width == old(self).width,
                self.height == old(self).height,
                self.depth == old(self).depth,
                self.layers == old(self).layers,
                self.registered == old(self).registered,
                self.to_add == old(self).to_add,
                self.spaces@ == whole_pages(self.width, self.height, i as nat),
            decreases self.depth - i,
        {
            let space = TexturePackerSpace {
                x: 0,
                y: 0,
                width: self.width,
                height: self.height,
                layer: i,
            };
            self.spaces.push(space);
            assert(self.spaces@ =~= whole_pages(self.width, self.height, (i + 1) as nat));
            i += 1;
        }
        self.registered.clear();
        proof {
            lemma_cleared_tiled(old(self)@);
            assert(self@.slots =~= Seq::empty());
            assert(self@ == old(self)@.cleared());
            assert(self.pages() =~= old(self).pages());
        }
    }

    /// Queues a request for a rectangle of `width` by `height` texels under
    /// `name`. Nothing is placed before the next `pack`.
    pub fn add(&mut self, name: &str, width: u32, height: u32)
        requires
            old(self).wf(),
        ensures
            final(self).wf(),
            final(self)@ == (Atlas {
                pending: old(self)@.pending.push(Request { name: name@, width, height }),
                ..old(self)@
            }),
            final(self).pages() == old(self).pages(),
    {
        self.to_add.push(PendingItem { name: name.to_owned(), width, height });
        proof {
            assert(self@.pending =~= old(self)@.pending.push(Request { name: name@, width, height }));
            assert(self.pages() =~= old(self).pages());
            lemma_tiled_by_layout(old(self)@, self@);
        }
    }

    /// Position of the newest entry registered under `name`, if there is one.
    fn position(&self, name: &String) -> (found: Option<usize>)
        ensures
            found is None <==> slot_index(self@.slots, name@) < 0,
            found matches Some(k) ==> k == slot_index(self@.slots, name@) && k
                < self.registered@.len(),
    {
        let mut k: usize = self.registered.len();
        while k > 0
            invariant
                k <= self.registered.len(),
                forall|m: int|
                    k <= m < self@.slots.len() ==> (#[trigger] self@.slots[m]).name != name@,
            decreases k,
        {
            k -= 1;
            if self.registered[k].name == *name {
                proof {
                    assert(self@.slots[k as int].name == name@);
                    lemma_slot_index_last(self@.slots, name@, k as int);
                }
                return Some(k);
            }
        }
        proof {
            lemma_slot_index_last(self@.slots, name@, -1);
        }
        None
    }

    /// The rectangle that was assigned to `name` last, if an item of that
    /// name is placed.
    pub fn get(&self, name: &str) -> (found: Option<TexturePackerSpace>)
        requires
            self.wf(),
        ensures
            found == self@.lookup(name@),
    {
        let key: String = name.to_owned();
        match self.position(&key) {
            Some(k) => Some(self.registered[k].space),
            None => None,
        }
    }

    /// Width of a page in texels.
    pub fn width(&self) -> (width: u32)
        ensures
            width == self@.width,
    {
        self.width
    }

    /// Height of a page in texels.
    pub fn height(&self) -> (height: u32)
        ensures
            height == self@.height,
    {
        self.height
    }

    /// Number of pages.
    pub fn depth(&self) -> (depth: u32)
        ensures
            depth == self@.depth,
    {
        self.depth
    }

    /// The bytes of page `layer`: four bytes for each texel, row after row.
    pub fn layer(&self, layer: u32) -> (bytes: &Vec<u8>)
        requires
            self.wf(),
            layer < self@.depth,
        ensures
            bytes@ == self.pages()[layer as int],
            bytes@.len() == self@.width * self@.height * 4,
    {
        assert(self.pages()[layer as int].len() == self@.width * self@.height * 4);
        &self.layers[layer as usize]
    }

    /// The free rectangles, in the order in which they were inserted.
    pub fn spaces(&self) -> (free: &Vec<TexturePackerSpace>)
        ensures
            free@ == self@.free,
    {
        &self.spaces
    }

    /// Number of requests that are queued.
    pub fn pending(&self) -> (count: usize)
        ensures
            count == self@.pending.len(),
    {
        self.to_add.len()
    }

    /// Number of rectangles that items have taken since the last reset. A
    /// name that was placed more than once is counted each time.
    pub fn placed(&self) -> (count: usize)
        ensures
            count == self@.slots.len(),
    {
        self.registered.len()
    }

    /// The number of texels of page `layer` that lie in a free rectangle or
    /// in the rectangle of a placed item. On a tiled atlas this is the number
    /// of texels of the page.
    pub fn coverage(&self, layer: u32) -> (texels: u64)
        requires
            self.wf(),
            layer < self@.depth,
        ensures
            texels == self@.accounted(layer as int),
            texels == self@.width * self@.height,
    {
        let ghost free = self@.free;
        let ghost used = occupied(self@.slots);
        proof {
            assert(self@.accounted(layer as int) <= self@.page_texels());
            lemma_texels_on_nonnegative(used, layer as int);
            lemma_texels_on_nonnegative(free, layer as int);
        }
        let mut total: u64 = 0;
        let mut i: usize = 0;
        while i < self.spaces.len()
            invariant
                i <= self.spaces@.len(),
                free == self.spaces@,
                total == texels_on(free.take(i as int), layer as int),
                texels_on(free, layer as int) <= u32::MAX,
            decreases self.spaces@.len() - i,
        {
            proof {
                assert(free.take(i + 1).drop_last() =~= free.take(i as int));
                assert(free.take(i + 1).last() == free[i as int]);
                lemma_texels_on_prefix(free, i + 1, layer as int);
            }
            if self.spaces[i].layer == layer {
                total = total + self.spaces[i].area();
            }
            i += 1;
        }
        assert(free.take(free.len() as int) =~= free);
        let mut k: usize = 0;
        while k < self.registered.len()
            invariant
                k <= self.registered@.len(),
                used == occupied(self@.slots),
                used.len() == self.registered@.len(),
                total == texels_on(free, layer as int) + texels_on(used.take(k as int), layer as int),
                texels_on(free, layer as int) + texels_on(used, layer as int) <= u32::MAX,
                texels_on(free, layer as int) >= 0,
            decreases self.registered@.len() - k,
        {
            proof {
                assert(used.take(k + 1).drop_last() =~= used.take(k as int));
                assert(used.take(k + 1).last() == self.registered@[k as int]@.space);
                lemma_texels_on_prefix(used, k + 1, layer as int);
            }
            if self.registered[k].space.layer == layer {
                total = total + self.registered[k].space.area();
            }
            k += 1;
        }
        assert(used.take(used.len() as int) =~= used);
        total
    }

    /// Appends a free rectangle to the free list.
    fn insert_space(&mut self, x: u32, y: u32, width: u32, height: u32, layer: u32)
        ensures
            final(self).spaces@ == old(self).spaces@.push(
                TexturePackerSpace { x, y, width, height, layer },
            ),
            final(self).width == old(self).width,
            final(self).height == old(self).height,
            final(self).depth == old(self).depth,
            final(self).layers == old(self).layers,
            final(self).registered == old(self).registered,
            final(self).to_add == old(self).to_add,
    {
        let space = TexturePackerSpace { x, y, width, height, layer };
        self.spaces.push(space);
    }

    /// Tries one request. Where a free rectangle is large enough, the item
    /// takes the top-left corner of the most recently inserted such
    /// rectangle, what is left of that rectangle goes to the end of the free
    /// list, and the item is what `name` is looked up as from now on. Returns
    /// the corner, or an error when no free rectangle is large enough; then
    /// nothing has changed.
    pub fn pack_item(&mut self, name: &str, width: u32, height: u32) -> (placed: Result<
        (u32, u32),
        String,
    >)
        requires
            old(self).wf(),
        ensures
            final(self).wf(),
            final(self).pages() == old(self).pages(),
            final(self)@ == old(self)@.place(name@, width, height),
            placed is Ok <==> old(self)@.has_room(width, height),
            placed is Err ==> final(self)@ == old(self)@,
            placed matches Ok(at) ==> {
                let i = last_fit(old(self)@.free, width as int, height as int);
                let space = old(self)@.free[i];
                let strips = remainder(space, width, height);
                &&& 0 <= i < old(self)@.free.len()
                &&& space.admits(width as int, height as int)
                &&& forall|j: int|
                    i < j < old(self)@.free.len() ==> !(#[trigger] old(self)@.free[j]).admits(
                        width as int,
                        height as int,
                    )
                &&& at == (space.x, space.y)
                &&& final(self)@.lookup(name@) == Some(corner(space, width, height))
                &&& final(self)@.free == old(self)@.free.remove(i) + strips
                &&& final(self)@.slots == old(self)@.slots.push(
                    Slot { name: name@, space: corner(space, width, height) },
                )
                &&& strips.len() <= 2
                &&& corner(space, width, height).texels() + texels_on(strips, space.layer as int)
                    == space.texels()
            },
    {
        let key: String = name.to_owned();
        let mut index: usize = self.spaces.len();
        while index > 0
            invariant
                index <= self.spaces.len(),
                *self == *old(self),
                old(self).wf(),
                key@ == name@,
                forall|j: int|
                    index <= j < self.spaces@.len() ==> !(#[trigger] self.spaces@[j]).admits(
                        width as int,
                        height as int,
                    ),
            decreases index,
        {
            index -= 1;
            if self.spaces[index].fits(width, height) {
                let ghost before = self@;
                let space = self.spaces.remove(index);
                let x = space.x;
                let y = space.y;
                let item = TexturePackerSpace { x, y, width, height, layer: space.layer };
                proof {
                    lemma_last_fit_is(before.free, width as int, height as int, index as int);
                    assert(space.within(
                        before.width as int,
                        before.height as int,
                        before.depth as int,
                    ));
                    assert(item == corner(space, width, height));
                }
                self.registered.push(AtlasEntry { name: key, space: item });
                assert(self@.slots =~= before.slots.push(Slot { name: name@, space: item }));
                if space.width == width && space.height == height {
                } else if space.height == height {
                    self.insert_space(x + width, y, space.width - width, height, space.layer);
                } else if space.width == width {
                    self.insert_space(x, y + height, width, space.height - height, space.layer);
                } else {
                    let beside: u32 = space.width - width;
                    let beneath: u32 = space.height - height;
                    assert(forall|a: u32, b: u32| #[trigger] (a * b) <= 0xFFFF_FFFF * 0xFFFF_FFFF)
                        by (nonlinear_arith);
                    let short: u64 = (beside as u64) * (height as u64);
                    let wide: u64 = (space.width as u64) * (beneath as u64);
                    let tall: u64 = (beside as u64) * (space.height as u64);
                    let narrow: u64 = (width as u64) * (beneath as u64);
                    let first_gap: u64 = if short >= wide {
                        short - wide
                    } else {
                        wide - short
                    };
                    let second_gap: u64 = if tall >= narrow {
                        tall - narrow
                    } else {
                        narrow - tall
                    };
                    if first_gap <= second_gap {
                        if short > wide {
                            self.insert_space(x + width, y, beside, height, space.layer);
                            self.insert_space(x, y + height, space.width, beneath, space.layer);
                        } else {
                            self.insert_space(x, y + height, space.width, beneath, space.layer);
                            self.insert_space(x + width, y, beside, height, space.layer);
                        }
                    } else {
                        if tall > narrow {
                            self.insert_space(x + width, y, beside, space.height, space.layer);
                            self.insert_space(x, y + height, width, beneath, space.layer);
                        } else {
                            self.insert_space(x, y + height, width, beneath, space.layer);
                            self.insert_space(x + width, y, beside, space.height, space.layer);
                        }
                    }
                }
                proof {
                    assert(self@.free =~= before.free.remove(index as int) + remainder(
                        space,
                        width,
                        height,
                    ));
                    assert(self@ == before.place(name@, width, height));
                    lemma_place_tiled(before, name@, width, height);
                    lemma_remainder(space, width, height);
                    assert(space.texels_at(space.layer as int) == item.texels_at(
                        space.layer as int,
                    ) + texels_on(remainder(space, width, height), space.layer as int));
                    lemma_slot_index_last(self@.slots, name@, self@.slots.len() - 1);
                    assert(self.pages() =~= old(self).pages());
                }
                return Ok((x, y));
            }
        }
        proof {
            lemma_last_fit_is(self@.free, width as int, height as int, -1);
        }
        Err("No space left".to_owned())
    }

    /// The queued requests in the order in which they are placed.
    fn placement_order(&self) -> (order: Vec<PendingItem>)
        ensures
            requests_of(order@) == largest_first(self@.pending),
    {
        let mut order: Vec<PendingItem> = Vec::new();
        let mut i: usize = 0;
        while i < self.to_add.len()
            invariant
                i <= self.to_add.len(),
                requests_of(order@) == largest_first(self@.pending.take(i as int)),
            decreases self.to_add.len() - i,
        {
            let item = self.to_add[i].duplicate();
            let size: u64 = item.area();
            let ghost head = requests_of(order@);
            let mut at: usize = order.len();
            while at > 0 && order[at - 1].area() < size
                invariant
                    at <= order.len(),
                    head == requests_of(order@),
                    forall|j: int| at <= j < head.len() ==> (#[trigger] head[j]).texels() < size,
                decreases at,
            {
                at -= 1;
            }
            proof {
                lemma_landing_is(head, size as int, at as int);
                assert(self@.pending.take(i + 1).drop_last() =~= self@.pending.take(i as int));
                assert(self@.pending.take(i + 1).last() == item@);
            }
            order.insert(at, item);
            assert(requests_of(order@) =~= head.insert(at as int, item@));
            i += 1;
        }
        assert(self@.pending.take(self.to_add@.len() as int) =~= self@.pending);
        order
    }

    /// Tries the queued requests, from the largest to the smallest and those
    /// of one size in the order in which they were queued. A request is
    /// placed where a free rectangle is large enough for it. A request that
    /// finds no room stays queued and is tried again by the next `pack`.
    /// Returns an error that names the requests without room, if there are
    /// any. The pages stay tiled either way.
    pub fn pack(&mut self) -> (done: Result<(), PackError>)
        requires
            old(self).wf(),
        ensures
            final(self).wf(),
            final(self)@ == old(self)@.packed(),
            final(self)@.width == old(self)@.width,
            final(self)@.height == old(self)@.height,
            final(self)@.depth == old(self)@.depth,
            final(self).pages() == old(self).pages(),
            done is Ok <==> old(self)@.unplaced().len() == 0,
            done matches Err(e) ==> names_of(e.unplaced@) == old(self)@.unplaced() && e.attempted
                == old(self)@.pending.len(),
            old(self)@.pending.len() == 0 ==> final(self)@ == old(self)@ && done is Ok,
    {
        let ghost start = self@;
        let order = self.placement_order();
        let ghost tried = requests_of(order@);
        let mut could_not_pack: Vec<String> = Vec::new();
        let mut kept: Vec<PendingItem> = Vec::new();
        let mut i: usize = 0;
        while i < order.len()
            invariant
                i <= order.len(),
                self.wf(),
                tried == requests_of(order@),
                self.pages() == old(self).pages(),
                (self@, requests_of(kept@)) == start.place_each(tried.take(i as int)),
                names_of(could_not_pack@) == names(requests_of(kept@)),
            decreases order.len() - i,
        {
            let ghost rejected = requests_of(kept@);
            let ghost failed = names_of(could_not_pack@);
            proof {
                assert(tried.take(i + 1).drop_last() =~= tried.take(i as int));
                assert(tried.take(i + 1).last() == order@[i as int]@);
            }
            match self.pack_item(order[i].name.as_str(), order[i].width, order[i].height) {
                Ok(_) => {},
                Err(_) => {
                    could_not_pack.push(order[i].name.clone());
                    kept.push(order[i].duplicate());
                    proof {
                        assert(requests_of(kept@) =~= rejected.push(order@[i as int]@));
                        assert(names_of(could_not_pack@) =~= failed.push(order@[i as int]@.name));
                        assert(names(rejected.push(order@[i as int]@)) =~= names(rejected).push(
                            order@[i as int]@.name,
                        ));
                    }
                },
            }
            i += 1;
        }
        assert(tried.take(order@.len() as int) =~= tried);
        let attempted = order.len();
        self.to_add = kept;
        proof {
            assert(self@ == start.packed());
            lemma_packed_tiled(start);
            lemma_largest_first(start.pending);
            assert(tried.len() == order@.len());
            assert(self.pages() =~= old(self).pages());
            if start.pending.len() == 0 {
                lemma_pack_nothing(start);
            }
        }
        if could_not_pack.len() > 0 {
            Err(PackError { unplaced: could_not_pack, attempted })
        } else {
            Ok(())
        }
    }

    /// The pages show the rectangles of `spaces`, and nothing else: a texel
    /// has the colour `colors[i]` of the last rectangle `i` that holds it, and
    /// is zero where no rectangle holds it.
    pub open spec fn shows(&self, spaces: Seq<TexturePackerSpace>, colors: Seq<u32>) -> bool {
        forall|l: int, px: int, py: int, c: int|
            0 <= l < self@.depth && 0 <= px < self@.width && 0 <= py < self@.height && 0 <= c < 4
                ==> #[trigger] channel(self.pages()[l], self@.width as int, px, py, c) == painted(
                blank_pages(self@.depth as nat, (self@.width * self@.height * 4) as nat),
                self@.width as int,
                spaces,
                colors,
                l,
                px,
                py,
                c,
            )
    }

    /// Whether a bitmap of `data_width` by `data_height` texels in a buffer
    /// of `data_len` bytes can be written to the item registered under
    /// `name`: the buffer holds the bitmap and the bitmap has a texel to
    /// sample, unless there is no such item or its rectangle is empty.
    pub open spec fn takes(&self, name: Seq<char>, data_len: nat, data_width: u32, data_height: u32) -> bool {
        match self@.lookup(name) {
            None => true,
            Some(space) => space.is_empty() || (data_width >= 1 && data_height >= 1 && data_len
                >= data_width * data_height * 4),
        }
    }

    /// Writes an RGBA bitmap of `width` by `height` texels to the rectangle
    /// of the item registered under `name`. A bitmap of another size than the
    /// rectangle is fitted to it by sampling the nearest texel at or before
    /// the scaled position, which is computed exactly in whole numbers (see
    /// `source_of`; floating-point samplers can differ by one texel). Without
    /// an item of that name nothing happens.
    pub fn update(&mut self, name: &str, data: &[u8], width: u32, height: u32)
        requires
            old(self).wf(),
            old(self).takes(name@, data@.len(), width, height),
        ensures
            final(self).wf(),
            final(self)@ == old(self)@,
            old(self)@.lookup(name@) is None ==> final(self).pages() == old(self).pages(),
            old(self)@.lookup(name@) matches Some(space) ==> forall|l: int, px: int, py: int, c: int|
                0 <= l < final(self)@.depth && 0 <= px < final(self)@.width && 0 <= py
                    < final(self)@.height && 0 <= c < 4 ==> #[trigger] channel(
                    final(self).pages()[l],
                    final(self)@.width as int,
                    px,
                    py,
                    c,
                ) == if space.covers(l, px, py) {
                    sampled(data@, width, height, space, px - space.x, py - space.y, c)
                } else {
                    channel(old(self).pages()[l], old(self)@.width as int, px, py, c)
                },
    {
        let key: String = name.to_owned();
        match self.position(&key) {
            None => {},
            Some(k) => {
                let space = self.registered[k].space;
                assert(self@.slots[k as int].space.within(
                    self@.width as int,
                    self@.height as int,
                    self@.depth as int,
                ));
                assert(self.pages()[space.layer as int].len() == self.width * self.height * 4);
                copy_into(
                    &mut self.layers[space.layer as usize],
                    self.width,
                    self.height,
                    &space,
                    data,
                    width,
                    height,
                );
                proof {
                    assert forall|l: int| 0 <= l < self.pages().len() implies (
                    #[trigger] self.pages()[l]).len() == self@.width * self@.height * 4 by {
                        assert(old(self).pages()[l].len() == self@.width * self@.height * 4);
                    }
                    assert forall|l: int, px: int, py: int, c: int|
                        0 <= l < self@.depth && 0 <= px < self@.width && 0 <= py < self@.height && 0
                            <= c < 4 implies #[trigger] channel(
                        self.pages()[l],
                        self@.width as int,
                        px,
                        py,
                        c,
                    ) == if space.covers(l, px, py) {
                        sampled(data@, width, height, space, px - space.x, py - space.y, c)
                    } else {
                        channel(old(self).pages()[l], old(self)@.width as int, px, py, c)
                    } by {
                        if l != space.layer {
                            assert(self.layers@[l] == old(self).layers@[l]);
                        }
                    }
                }
            },
        }
        assert(self.pages() =~= old(self).pages() || old(self)@.lookup(name@) is Some);
    }

    /// The colour that marks the item registered under `name`.
    fn name_color(name: &str) -> (color: u32)
        ensures
            color == tint_of(name@),
    {
        (hash_name(name) as u32) | 0x0000_00FF
    }

    /// Shows where the placed items lie: every page is cleared to zero, then
    /// the rectangle of each item is filled with the colour that marks its
    /// name. The packing state is not touched.
    pub fn fill_color(&mut self) -> (done: Result<(), String>)
        requires
            old(self).wf(),
        ensures
            done is Ok,
            final(self).wf(),
            final(self)@ == old(self)@,
            final(self).shows(occupied(final(self)@.slots), tints_of(final(self)@.slots)),
    {
        let mut spaces: Vec<TexturePackerSpace> = Vec::new();
        let mut colors: Vec<u32> = Vec::new();
        let mut k: usize = 0;
        while k < self.registered.len()
            invariant
                k <= self.registered@.len(),
                *self == *old(self),
                spaces@ == occupied(self@.slots).take(k as int),
                colors@ == tints_of(self@.slots).take(k as int),
            decreases self.registered@.len() - k,
        {
            spaces.push(self.registered[k].space);
            colors.push(Self::name_color(self.registered[k].name.as_str()));
            assert(spaces@ =~= occupied(self@.slots).take(k + 1));
            assert(colors@ =~= tints_of(self@.slots).take(k + 1));
            k += 1;
        }
        assert(spaces@ =~= occupied(self@.slots));
        assert(colors@ =~= tints_of(self@.slots));
        self.paint(&spaces, &colors);
        Ok(())
    }

    /// Clears every page to zero, then paints the rectangles of `spaces`
    /// one after the other, rectangle `i` in the colour `colors[i]`.
    fn paint(&mut self, spaces: &Vec<TexturePackerSpace>, colors: &Vec<u32>)
        requires
            old(self).wf(),
            colors@.len() == spaces@.len(),
            forall|i: int|
                0 <= i < spaces@.len() ==> (#[trigger] spaces@[i]).within(
                    old(self)@.width as int,
                    old(self)@.height as int,
                    old(self)@.depth as int,
                ),
        ensures
            final(self).wf(),
            final(self)@ == old(self)@,
            final(self).shows(spaces@, colors@),
    {
        assert forall|l: int| 0 <= l < self.layers@.len() implies (#[trigger] self.layers@[l])@.len()
            == self.width * self.height * 4 by {
            assert(self.pages()[l].len() == self@.width * self@.height * 4);
        }
        clear_pages(&mut self.layers);
        let ghost cleared = self.layers@;
        paint_spaces(&mut self.layers, self.width, self.height, spaces, colors);
        proof {
            let blank = blank_pages(self.depth as nat, (self.width * self.height * 4) as nat);
            assert forall|l: int| 0 <= l < self.pages().len() implies (#[trigger] self.pages()[l]).len()
                == self@.width * self@.height * 4 by {
                assert(self.layers@[l]@.len() == self.width * self.height * 4);
            }
            assert forall|l: int, px: int, py: int, c: int|
                0 <= l < self@.depth && 0 <= px < self@.width && 0 <= py < self@.height && 0 <= c
                    < 4 implies #[trigger] channel(self.pages()[l], self@.width as int, px, py, c)
                == painted(blank, self@.width as int, spaces@, colors@, l, px, py, c) by {
                assert(channel(self.layers@[l]@, self.width as int, px, py, c) == painted(
                    bytes_of(cleared),
                    self.width as int,
                    spaces@,
                    colors@,
                    l,
                    px,
                    py,
                    c,
                ));
                crate::pixels::lemma_texel_bounds(self.width as int, self.height as int, px, py);
                assert(bytes_of(cleared)[l] =~= blank[l]);
            }
        }
    }

    /// Shows where the free rectangles lie: every page is cleared to zero,
    /// then the free rectangles are painted one after the other, rectangle
    /// `i` in the colour `colors[i]`. The packing state is not touched.
    pub fn fill_color_with(&mut self, colors: &Vec<u32>)
        requires
            old(self).wf(),
            colors@.len() == old(self)@.free.len(),
        ensures
            final(self).wf(),
            final(self)@ == old(self)@,
            final(self).shows(final(self)@.free, colors@),
    {
        let mut spaces: Vec<TexturePackerSpace> = Vec::new();
        let mut i: usize = 0;
        while i < self.spaces.len()
            invariant
                i <= self.spaces@.len(),
                *self == *old(self),
                spaces@ == self.spaces@.take(i as int),
            decreases self.spaces@.len() - i,
        {
            spaces.push(self.spaces[i]);
            assert(spaces@ =~= self.spaces@.take(i + 1));
            i += 1;
        }
        assert(spaces@ =~= self.spaces@);
        self.paint(&spaces, colors);
    }

    /// Shows where the free rectangles lie: every page is cleared to zero,
    /// then each free rectangle is filled with an opaque colour drawn at
    /// random. The packing state is not touched.
    pub fn fill_color_empty(&mut self) -> (done: Result<(), String>)
        requires
            old(self).wf(),
        ensures
            done is Ok,
            final(self).wf(),
            final(self)@ == old(self)@,
            exists|colors: Seq<u32>|
                colors.len() == final(self)@.free.len() && opaque(colors)
                    && #[trigger] final(self).shows(final(self)@.free, colors),
    {
        let mut colors: Vec<u32> = Vec::new();
        let mut i: usize = 0;
        while i < self.spaces.len()
            invariant
                i <= self.spaces@.len(),
                *self == *old(self),
                colors@.len() == i,
                forall|j: int| 0 <= j < i ==> #[trigger] colors@[j] & 0xFF == 0xFF,
            decreases self.spaces@.len() - i,
        {
            let word: u32 = random_word();
            let color: u32 = word | 0x0000_00FF;
            assert(color & 0xFF == 0xFF) by (bit_vector)
                requires
                    color == word | 0xFF,
            ;
            colors.push(color);
            i += 1;
        }
        self.fill_color_with(&colors);
        assert(opaque(colors@) && self.shows(self@.free, colors@));
        Ok(())
    }
}

} // verus!
