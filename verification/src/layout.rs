use crate::order::largest_first;
use crate::space::TexturePackerSpace;
use vstd::prelude::*;

verus! {

/// A placed item as contracts see it: the name under which it was registered
/// and the rectangle it was given.
pub struct Slot {
    pub name: Seq<char>,
    pub space: TexturePackerSpace,
}

/// A queued request as contracts see it.
pub struct Request {
    pub name: Seq<char>,
    pub width: u32,
    pub height: u32,
}

impl Request {
    /// Number of texels the request asks for.
    pub open spec fn texels(self) -> int {
        self.width * self.height
    }
}

/// The packing state of an atlas: its page geometry, the free rectangles in
/// the order in which they were inserted, the placed items in the order in
/// which they were placed, and the queue of requests. A name that was placed
/// more than once has a slot for each time; the newest is the one that is
/// looked up, and the older ones keep their rectangles taken.
pub struct Atlas {
    pub width: u32,
    pub height: u32,
    pub depth: u32,
    pub free: Seq<TexturePackerSpace>,
    pub slots: Seq<Slot>,
    pub pending: Seq<Request>,
}

/// The rectangle that covers the whole of page `layer`.
pub open spec fn whole_page(width: u32, height: u32, layer: u32) -> TexturePackerSpace {
    TexturePackerSpace { x: 0, y: 0, width, height, layer }
}

/// One whole-page rectangle for each of the first `count` layers, in layer order.
pub open spec fn whole_pages(width: u32, height: u32, count: nat) -> Seq<TexturePackerSpace> {
    Seq::new(count, |i: int| whole_page(width, height, i as u32))
}

/// Index of the free rectangle that a `width` by `height` request is cut from:
/// the most recently inserted one that is large enough, or -1 if none is.
pub open spec fn last_fit(free: Seq<TexturePackerSpace>, width: int, height: int) -> int
    decreases free.len(),
{
    if free.len() == 0 {
        -1
    } else if free.last().admits(width, height) {
        free.len() - 1
    } else {
        last_fit(free.drop_last(), width, height)
    }
}

/// Index of the newest slot registered under `name`, or -1 if there is none.
pub open spec fn slot_index(slots: Seq<Slot>, name: Seq<char>) -> int
    decreases slots.len(),
{
    if slots.len() == 0 {
        -1
    } else if slots.last().name == name {
        slots.len() - 1
    } else {
        slot_index(slots.drop_last(), name)
    }
}

/// The names of the requests of a queue, request by request.
pub open spec fn names(requests: Seq<Request>) -> Seq<Seq<char>> {
    Seq::new(requests.len(), |i: int| requests[i].name)
}

/// The part of `space` that an item of `width` by `height` texels occupies:
/// its top-left corner.
pub open spec fn corner(space: TexturePackerSpace, width: u32, height: u32) -> TexturePackerSpace {
    TexturePackerSpace { x: space.x, y: space.y, width, height, layer: space.layer }
}

/// The strip of `space` to the right of an item `width` wide, `span` rows high.
pub open spec fn strip_right(space: TexturePackerSpace, width: u32, span: u32) -> TexturePackerSpace {
    TexturePackerSpace {
        x: (space.x + width) as u32,
        y: space.y,
        width: (space.width - width) as u32,
        height: span,
        layer: space.layer,
    }
}

/// The strip of `space` below an item `height` high, `span` columns wide.
pub open spec fn strip_below(space: TexturePackerSpace, height: u32, span: u32) -> TexturePackerSpace {
    TexturePackerSpace {
        x: space.x,
        y: (space.y + height) as u32,
        width: span,
        height: (space.height - height) as u32,
        layer: space.layer,
    }
}

/// How far apart two rectangles are in size.
pub open spec fn imbalance(a: TexturePackerSpace, b: TexturePackerSpace) -> int {
    if a.texels() >= b.texels() {
        a.texels() - b.texels()
    } else {
        b.texels() - a.texels()
    }
}

/// The two strips of a split in the order in which they join the free list:
/// the larger first, the strip below first when they are equal.
pub open spec fn larger_first(right: TexturePackerSpace, below: TexturePackerSpace) -> Seq<
    TexturePackerSpace,
> {
    if right.texels() > below.texels() {
        seq![right, below]
    } else {
        seq![below, right]
    }
}

/// What is left of `space` once an item of `width` by `height` texels has
/// taken its top-left corner, as the free rectangles that replace it.
///
/// An exact fit leaves nothing. A fit in one dimension leaves one strip.
/// Otherwise there are two ways to cut: a short strip to the right of the item
/// and a strip as wide as `space` below it, or a strip as high as `space` to
/// the right and a strip as wide as the item below. The cut whose two strips
/// differ less in size is taken, the first of the two when neither differs
/// less.
pub open spec fn remainder(space: TexturePackerSpace, width: u32, height: u32) -> Seq<
    TexturePackerSpace,
> {
    if space.width == width && space.height == height {
        Seq::empty()
    } else if space.height == height {
        seq![strip_right(space, width, height)]
    } else if space.width == width {
        seq![strip_below(space, height, width)]
    } else {
        let short = strip_right(space, width, height);
        let wide = strip_below(space, height, space.width);
        let tall = strip_right(space, width, space.height);
        let narrow = strip_below(space, height, width);
        if imbalance(short, wide) <= imbalance(tall, narrow) {
            larger_first(short, wide)
        } else {
            larger_first(tall, narrow)
        }
    }
}

/// The rectangles of the placed items, slot by slot.
pub open spec fn occupied(slots: Seq<Slot>) -> Seq<TexturePackerSpace> {
    Seq::new(slots.len(), |k: int| slots[k].space)
}

/// Total number of texels of the rectangles of `spaces` that lie on `layer`.
pub open spec fn texels_on(spaces: Seq<TexturePackerSpace>, layer: int) -> int
    decreases spaces.len(),
{
    if spaces.len() == 0 {
        0
    } else {
        texels_on(spaces.drop_last(), layer) + spaces.last().texels_at(layer)
    }
}

/// Index of the last rectangle of `spaces` that holds the texel, or -1 if
/// none does.
pub open spec fn covering(spaces: Seq<TexturePackerSpace>, layer: int, px: int, py: int) -> int
    decreases spaces.len(),
{
    if spaces.len() == 0 {
        -1
    } else if spaces.last().covers(layer, px, py) {
        spaces.len() - 1
    } else {
        covering(spaces.drop_last(), layer, px, py)
    }
}

impl Atlas {
    /// The state of an atlas in which nothing is placed or queued.
    pub open spec fn blank(width: u32, height: u32, depth: u32) -> Atlas {
        Atlas {
            width,
            height,
            depth,
            free: whole_pages(width, height, depth as nat),
            slots: Seq::empty(),
            pending: Seq::empty(),
        }
    }

    /// The state with every page free again and nothing placed. What is
    /// queued stays queued.
    pub open spec fn cleared(self) -> Atlas {
        Atlas { pending: self.pending, ..Atlas::blank(self.width, self.height, self.depth) }
    }

    /// Some free rectangle is large enough for a `width` by `height` request.
    pub open spec fn has_room(self, width: u32, height: u32) -> bool {
        last_fit(self.free, width as int, height as int) >= 0
    }

    /// Some item is placed under `name`.
    pub open spec fn is_placed(self, name: Seq<char>) -> bool {
        slot_index(self.slots, name) >= 0
    }

    /// The state after a `width` by `height` request under `name` was tried.
    /// Where a free rectangle is large enough, the item takes the top-left
    /// corner of the most recently inserted such rectangle, what is left of
    /// that rectangle joins the end of the free list, and the item becomes
    /// the newest slot; a slot that the name had before stays where it is,
    /// behind the new one. Else the state is unchanged.
    pub open spec fn place(self, name: Seq<char>, width: u32, height: u32) -> Atlas {
        if self.has_room(width, height) {
            let i = last_fit(self.free, width as int, height as int);
            Atlas {
                free: self.free.remove(i) + remainder(self.free[i], width, height),
                slots: self.slots.push(Slot { name, space: corner(self.free[i], width, height) }),
                ..self
            }
        } else {
            self
        }
    }

    /// The state after each of `requests` was tried in turn, and the requests
    /// that found no room, in the order in which they were tried.
    pub open spec fn place_each(self, requests: Seq<Request>) -> (Atlas, Seq<Request>)
        decreases requests.len(),
    {
        if requests.len() == 0 {
            (self, Seq::empty())
        } else {
            let (before, rejected) = self.place_each(requests.drop_last());
            let request = requests.last();
            if before.has_room(request.width, request.height) {
                (before.place(request.name, request.width, request.height), rejected)
            } else {
                (before, rejected.push(request))
            }
        }
    }

    /// The queued requests that packing finds no room for, in the order in
    /// which they are tried.
    pub open spec fn rejected(self) -> Seq<Request> {
        self.place_each(largest_first(self.pending)).1
    }

    /// The names of the queued requests that packing finds no room for, in
    /// the order in which they are tried.
    pub open spec fn unplaced(self) -> Seq<Seq<char>> {
        names(self.rejected())
    }

    /// The state after packing: the queued requests were tried from the
    /// largest to the smallest, and what stays queued are the requests that
    /// found no room.
    pub open spec fn packed(self) -> Atlas {
        Atlas { pending: self.rejected(), ..self.place_each(largest_first(self.pending)).0 }
    }

    /// The rectangle of the newest slot registered under `name`, if any.
    pub open spec fn lookup(self, name: Seq<char>) -> Option<TexturePackerSpace> {
        let k = slot_index(self.slots, name);
        if k >= 0 {
            Some(self.slots[k].space)
        } else {
            None
        }
    }

    /// Texels of page `layer` that are accounted for by a free rectangle or a
    /// placed item.
    pub open spec fn accounted(self, layer: int) -> int {
        texels_on(self.free, layer) + texels_on(occupied(self.slots), layer)
    }

    /// Number of texels of one page.
    pub open spec fn page_texels(self) -> int {
        self.width * self.height
    }

    /// Some free rectangle or placed item holds the texel.
    pub open spec fn holds(self, layer: int, px: int, py: int) -> bool {
        ||| exists|i: int| 0 <= i < self.free.len() && #[trigger] self.free[i].covers(layer, px, py)
        ||| exists|k: int|
            0 <= k < self.slots.len() && #[trigger] self.slots[k].space.covers(layer, px, py)
    }

    /// What every atlas state satisfies: all rectangles lie on the pages, no
    /// two of them share a texel, and no page accounts for more texels than
    /// it has.
    pub open spec fn sound(self) -> bool {
        &&& forall|i: int|
            0 <= i < self.free.len() ==> (#[trigger] self.free[i]).within(
                self.width as int,
                self.height as int,
                self.depth as int,
            )
        &&& forall|k: int|
            0 <= k < self.slots.len() ==> (#[trigger] self.slots[k]).space.within(
                self.width as int,
                self.height as int,
                self.depth as int,
            )
        &&& forall|i: int, j: int|
            0 <= i < self.free.len() && 0 <= j < self.free.len() && i != j ==> (
            #[trigger] self.free[i]).disjoint(#[trigger] self.free[j])
        &&& forall|i: int, k: int|
            0 <= i < self.free.len() && 0 <= k < self.slots.len() ==> (
            #[trigger] self.free[i]).disjoint((#[trigger] self.slots[k]).space)
        &&& forall|k: int, m: int|
            0 <= k < self.slots.len() && 0 <= m < self.slots.len() && k != m ==> (
            #[trigger] self.slots[k]).space.disjoint((#[trigger] self.slots[m]).space)
        &&& forall|layer: int|
            0 <= layer < self.depth ==> #[trigger] self.accounted(layer) <= self.page_texels()
    }

    /// The free rectangles and the placed items tile every page: the state is
    /// sound, every texel of every page lies in one of them, and the texels
    /// accounted for on a page are exactly the texels of the page.
    pub open spec fn tiled(self) -> bool {
        &&& self.sound()
        &&& forall|layer: int, px: int, py: int|
            0 <= layer < self.depth && 0 <= px < self.width && 0 <= py < self.height
                ==> #[trigger] self.holds(layer, px, py)
        &&& forall|layer: int|
            0 <= layer < self.depth ==> #[trigger] self.accounted(layer) == self.page_texels()
    }
}

} // verus!
