use vstd::prelude::*;

verus! {

/// An axis-aligned rectangle of texels on one page (layer) of the atlas.
///
/// `x`, `y` is the top-left corner; the rectangle holds the texels
/// `(px, py)` with `x <= px < x + width` and `y <= py < y + height`.
#[derive(Clone, Copy, Debug, PartialEq, Eq, Structural)]
pub struct TexturePackerSpace {
    pub x: u32,
    pub y: u32,
    pub width: u32,
    pub height: u32,
    pub layer: u32,
}

impl TexturePackerSpace {
    /// Number of texels in the rectangle.
    pub open spec fn texels(&self) -> int {
        self.width * self.height
    }

    /// Number of texels the rectangle has on page `layer`.
    pub open spec fn texels_at(&self, layer: int) -> int {
        if self.layer == layer {
            self.texels()
        } else {
            0
        }
    }

    /// First column to the right of the rectangle.
    pub open spec fn right(&self) -> int {
        self.x + self.width
    }

    /// First row below the rectangle.
    pub open spec fn bottom(&self) -> int {
        self.y + self.height
    }

    /// The rectangle holds no texel at all.
    pub open spec fn is_empty(&self) -> bool {
        self.width == 0 || self.height == 0
    }

    /// The texel `(px, py)` of page `layer` lies in the rectangle.
    pub open spec fn covers(&self, layer: int, px: int, py: int) -> bool {
        &&& self.layer == layer
        &&& self.x <= px < self.right()
        &&& self.y <= py < self.bottom()
    }

    /// A request of `width` by `height` texels can be cut out of the rectangle.
    pub open spec fn admits(&self, width: int, height: int) -> bool {
        self.width >= width && self.height >= height
    }

    /// The rectangle lies on a page of `depth` layers of `width` by `height` texels.
    pub open spec fn within(&self, width: int, height: int, depth: int) -> bool {
        &&& self.right() <= width
        &&& self.bottom() <= height
        &&& self.layer < depth
    }

    /// Every texel of the rectangle is a texel of `outer`.
    pub open spec fn inside(&self, outer: TexturePackerSpace) -> bool {
        &&& self.layer == outer.layer
        &&& outer.x <= self.x
        &&& outer.y <= self.y
        &&& self.right() <= outer.right()
        &&& self.bottom() <= outer.bottom()
    }

    /// The two rectangles have no texel in common.
    pub open spec fn disjoint(&self, other: TexturePackerSpace) -> bool {
        ||| self.layer != other.layer
        ||| self.is_empty()
        ||| other.is_empty()
        ||| self.right() <= other.x
        ||| other.right() <= self.x
        ||| self.bottom() <= other.y
        ||| other.bottom() <= self.y
    }

    pub fn area(&self) -> (a: u64)
        ensures
            a == self.texels(),
    {
        assert(self.width * self.height <= 0xFFFF_FFFF * 0xFFFF_FFFF) by (nonlinear_arith)
            requires
                self.width <= 0xFFFF_FFFF,
                self.height <= 0xFFFF_FFFF,
        ;
        (self.width as u64) * (self.height as u64)
    }

    pub fn fits(&self, width: u32, height: u32) -> (b: bool)
        ensures
            b == self.admits(width as int, height as int),
    {
        self.width >= width && self.height >= height
    }

    pub fn fits_in(&self, other: &TexturePackerSpace) -> (b: bool)
        ensures
            b == other.admits(self.width as int, self.height as int),
    {
        self.width <= other.width && self.height <= other.height
    }

    pub fn compare(&self, other: &TexturePackerSpace) -> (o: core::cmp::Ordering)
        ensures
            o is Less <==> self.texels() < other.texels(),
            o is Equal <==> self.texels() == other.texels(),
            o is Greater <==> self.texels() > other.texels(),
    {
        let mine: u64 = self.area();
        let theirs: u64 = other.area();
        if mine < theirs {
            core::cmp::Ordering::Less
        } else if mine == theirs {
            core::cmp::Ordering::Equal
        } else {
            core::cmp::Ordering::Greater
        }
    }
}

/// Two rectangles are disjoint exactly when no texel lies in both.
pub proof fn lemma_disjoint_means_no_shared_texel(a: TexturePackerSpace, b: TexturePackerSpace)
    ensures
        a.disjoint(b) <==> forall|layer: int, px: int, py: int|
            !(#[trigger] a.covers(layer, px, py) && b.covers(layer, px, py)),
{
    if !a.disjoint(b) {
        let px = if a.x >= b.x { a.x as int } else { b.x as int };
        let py = if a.y >= b.y { a.y as int } else { b.y as int };
        assert(a.covers(a.layer as int, px, py) && b.covers(a.layer as int, px, py));
    }
}

} // verus!
