use crate::layout::covering;
use crate::outside::clear_bytes;
use crate::space::TexturePackerSpace;
use vstd::prelude::*;

verus! {

/// Position of the first of the four bytes of texel `(px, py)` in a page that
/// is `width` texels wide.
pub open spec fn texel_offset(width: int, px: int, py: int) -> int {
    (py * width + px) * 4
}

/// Byte `c` of texel `(px, py)` of a page that is `width` texels wide.
pub open spec fn channel(page: Seq<u8>, width: int, px: int, py: int, c: int) -> u8 {
    page[texel_offset(width, px, py) + c]
}

/// Byte `c` of a colour that is packed into one word, first byte highest.
pub open spec fn color_byte(color: u32, c: int) -> u8 {
    if c == 0 {
        (color >> 24u32) as u8
    } else if c == 1 {
        (color >> 16u32) as u8
    } else if c == 2 {
        (color >> 8u32) as u8
    } else {
        color as u8
    }
}

/// Byte `c` of the texel of a bitmap of `data_width` by `data_height` texels
/// that lands on column `x`, row `y` of `space`.
pub open spec fn sampled(
    data: Seq<u8>,
    data_width: u32,
    data_height: u32,
    space: TexturePackerSpace,
    x: int,
    y: int,
    c: int,
) -> u8 {
    let scaled = data_width != space.width || data_height != space.height;
    channel(
        data,
        data_width as int,
        source_of(x, space.width as int, data_width as int, scaled),
        source_of(y, space.height as int, data_height as int, scaled),
        c,
    )
}

/// The texels of a page lie within its bytes.
pub proof fn lemma_texel_bounds(width: int, height: int, px: int, py: int)
    by (nonlinear_arith)
    requires
        0 <= px < width,
        0 <= py < height,
    ensures
        0 <= texel_offset(width, px, py),
        texel_offset(width, px, py) + 4 <= width * height * 4,
        0 <= py * width <= py * width + px < width * height,
{
}

/// Two texels of a page share no byte.
pub proof fn lemma_texel_apart(width: int, px: int, py: int, qx: int, qy: int)
    by (nonlinear_arith)
    requires
        0 <= px < width,
        0 <= qx < width,
        0 <= py,
        0 <= qy,
        px != qx || py != qy,
    ensures
        texel_offset(width, px, py) + 4 <= texel_offset(width, qx, qy) || texel_offset(
            width,
            qx,
            qy,
        ) + 4 <= texel_offset(width, px, py),
{
}

/// Writes the four bytes of one texel.
pub fn put_texel(
    page: &mut Vec<u8>,
    width: u32,
    height: u32,
    px: u32,
    py: u32,
    bytes: (u8, u8, u8, u8),
)
    requires
        old(page)@.len() == width * height * 4,
        width * height * 4 <= u32::MAX,
        px < width,
        py < height,
    ensures
        final(page)@.len() == old(page)@.len(),
        channel(final(page)@, width as int, px as int, py as int, 0) == bytes.0,
        channel(final(page)@, width as int, px as int, py as int, 1) == bytes.1,
        channel(final(page)@, width as int, px as int, py as int, 2) == bytes.2,
        channel(final(page)@, width as int, px as int, py as int, 3) == bytes.3,
        forall|qx: int, qy: int, c: int|
            0 <= qx < width && 0 <= qy < height && 0 <= c < 4 && (qx != px || qy != py)
                ==> #[trigger] channel(final(page)@, width as int, qx, qy, c) == channel(
                old(page)@,
                width as int,
                qx,
                qy,
                c,
            ),
{
    proof {
        lemma_texel_bounds(width as int, height as int, px as int, py as int);
    }
    let at: usize = ((py as usize) * (width as usize) + (px as usize)) * 4;
    page[at] = bytes.0;
    page[at + 1] = bytes.1;
    page[at + 2] = bytes.2;
    page[at + 3] = bytes.3;
    proof {
        assert forall|qx: int, qy: int, c: int|
            0 <= qx < width && 0 <= qy < height && 0 <= c < 4 && (qx != px || qy
                != py) implies #[trigger] channel(page@, width as int, qx, qy, c) == channel(
            old(page)@,
            width as int,
            qx,
            qy,
            c,
        ) by {
            lemma_texel_apart(width as int, px as int, py as int, qx, qy);
            lemma_texel_bounds(width as int, height as int, qx, qy);
        }
    }
}

/// The four bytes of a colour that is packed into one word.
pub fn color_bytes(color: u32) -> (bytes: (u8, u8, u8, u8))
    ensures
        bytes.0 == color_byte(color, 0),
        bytes.1 == color_byte(color, 1),
        bytes.2 == color_byte(color, 2),
        bytes.3 == color_byte(color, 3),
{
    ((color >> 24) as u8, (color >> 16) as u8, (color >> 8) as u8, color as u8)
}

/// Gives every texel of `space` the colour `color` and leaves the other
/// texels of the page as they are.
pub fn fill_space(
    page: &mut Vec<u8>,
    width: u32,
    height: u32,
    space: &TexturePackerSpace,
    color: u32,
)
    requires
        old(page)@.len() == width * height * 4,
        width * height * 4 <= u32::MAX,
        space.right() <= width,
        space.bottom() <= height,
    ensures
        final(page)@.len() == old(page)@.len(),
        forall|px: int, py: int, c: int|
            0 <= px < width && 0 <= py < height && 0 <= c < 4 ==> #[trigger] channel(
                final(page)@,
                width as int,
                px,
                py,
                c,
            ) == if space.covers(space.layer as int, px, py) {
                color_byte(color, c)
            } else {
                channel(old(page)@, width as int, px, py, c)
            },
{
    let bytes = color_bytes(color);
    let mut y: u32 = 0;
    while y < space.height
        invariant
            y <= space.height,
            page@.len() == width * height * 4,
            width * height * 4 <= u32::MAX,
            space.right() <= width,
            space.bottom() <= height,
            bytes.0 == color_byte(color, 0),
            bytes.1 == color_byte(color, 1),
            bytes.2 == color_byte(color, 2),
            bytes.3 == color_byte(color, 3),
            forall|px: int, py: int, c: int|
                0 <= px < width && 0 <= py < height && 0 <= c < 4 ==> #[trigger] channel(
                    page@,
                    width as int,
                    px,
                    py,
                    c,
                ) == if space.x <= px < space.right() && space.y <= py < space.y + y {
                    color_byte(color, c)
                } else {
                    channel(old(page)@, width as int, px, py, c)
                },
        decreases space.height - y,
    {
        let mut x: u32 = 0;
        while x < space.width
            invariant
                x <= space.width,
                y < space.height,
                page@.len() == width * height * 4,
                width * height * 4 <= u32::MAX,
                space.right() <= width,
                space.bottom() <= height,
                bytes.0 == color_byte(color, 0),
                bytes.1 == color_byte(color, 1),
                bytes.2 == color_byte(color, 2),
                bytes.3 == color_byte(color, 3),
                forall|px: int, py: int, c: int|
                    0 <= px < width && 0 <= py < height && 0 <= c < 4 ==> #[trigger] channel(
                        page@,
                        width as int,
                        px,
                        py,
                        c,
                    ) == if (space.x <= px < space.right() && space.y <= py < space.y + y) || (py
                        == space.y + y && space.x <= px < space.x + x) {
                        color_byte(color, c)
                    } else {
                        channel(old(page)@, width as int, px, py, c)
                    },
            decreases space.width - x,
        {
            put_texel(page, width, height, space.x + x, space.y + y, bytes);
            x += 1;
        }
        y += 1;
    }
}

/// The row or column of a bitmap that is sampled for row or column `i` of a
/// rectangle, where an edge of `extent` texels is fitted to `span` texels:
/// `i` itself when the bitmap is copied as it is, else the nearest one at or
/// before the point that `i` is scaled to.
///
/// The scaled position is `i * (extent - 1) / span` in whole numbers, rounded
/// down. A sampler that forms the same quotient in single-precision floating
/// point can land one texel lower where the exact quotient is a whole number:
/// with a rectangle 12 wide and a bitmap 109 wide, column 7 samples column 63
/// here, where such a sampler reads column 62.
pub open spec fn source_of(i: int, span: int, extent: int, scaled: bool) -> int {
    if scaled {
        i * (extent - 1) / span
    } else {
        i
    }
}

/// A scaled row or column lies in the bitmap.
pub proof fn lemma_source_in_range(i: int, span: int, extent: int)
    requires
        0 <= i < span,
        1 <= extent,
    ensures
        0 <= i * (extent - 1) / span < extent,
        0 <= i * (extent - 1),
{
    let reach = extent - 1;
    assert(0 <= i * reach <= span * reach) by (nonlinear_arith)
        requires
            0 <= i < span,
            0 <= reach,
    ;
    vstd::arithmetic::div_mod::lemma_div_is_ordered(i * reach, span * reach, span);
    vstd::arithmetic::div_mod::lemma_div_multiples_vanish(reach, span);
    vstd::arithmetic::div_mod::lemma_div_pos_is_pos(i * reach, span);
}

/// The row or column of the bitmap that is sampled for row or column `i`.
fn source_index(i: u32, span: u32, extent: u32, scaled: bool) -> (from: u32)
    requires
        i < span,
        1 <= extent,
        !scaled ==> span == extent,
    ensures
        from == source_of(i as int, span as int, extent as int, scaled),
        from < extent,
{
    if scaled {
        proof {
            lemma_source_in_range(i as int, span as int, extent as int);
            assert(i * (extent - 1) <= 0xFFFF_FFFF * 0xFFFF_FFFF) by (nonlinear_arith)
                requires
                    0 <= i <= 0xFFFF_FFFF,
                    0 <= extent - 1 <= 0xFFFF_FFFF,
            ;
        }
        let scaled_up: u64 = (i as u64) * ((extent - 1) as u64);
        (scaled_up / (span as u64)) as u32
    } else {
        i
    }
}

/// Copies a bitmap of `data_width` by `data_height` RGBA texels into `space`.
/// A bitmap of another size than `space` is fitted to it by sampling the
/// nearest texel. The other texels of the page stay as they are.
pub fn copy_into(
    page: &mut Vec<u8>,
    width: u32,
    height: u32,
    space: &TexturePackerSpace,
    data: &[u8],
    data_width: u32,
    data_height: u32,
)
    requires
        old(page)@.len() == width * height * 4,
        width * height * 4 <= u32::MAX,
        space.right() <= width,
        space.bottom() <= height,
        space.is_empty() || (data_width >= 1 && data_height >= 1 && data@.len() >= data_width
            * data_height * 4),
    ensures
        final(page)@.len() == old(page)@.len(),
        forall|px: int, py: int, c: int|
            0 <= px < width && 0 <= py < height && 0 <= c < 4 ==> #[trigger] channel(
                final(page)@,
                width as int,
                px,
                py,
                c,
            ) == if space.covers(space.layer as int, px, py) {
                sampled(data@, data_width, data_height, *space, px - space.x, py - space.y, c)
            } else {
                channel(old(page)@, width as int, px, py, c)
            },
{
    let scaled = data_width != space.width || data_height != space.height;
    let total: usize = data.len();
    let mut y: u32 = 0;
    while y < space.height
        invariant
            y <= space.height,
            page@.len() == width * height * 4,
            width * height * 4 <= u32::MAX,
            space.right() <= width,
            space.bottom() <= height,
            scaled == (data_width != space.width || data_height != space.height),
            data@.len() == total,
            space.is_empty() || (data_width >= 1 && data_height >= 1 && data@.len() >= data_width
                * data_height * 4),
            forall|px: int, py: int, c: int|
                0 <= px < width && 0 <= py < height && 0 <= c < 4 ==> #[trigger] channel(
                    page@,
                    width as int,
                    px,
                    py,
                    c,
                ) == if space.x <= px < space.right() && space.y <= py < space.y + y {
                    sampled(data@, data_width, data_height, *space, px - space.x, py - space.y, c)
                } else {
                    channel(old(page)@, width as int, px, py, c)
                },
        decreases space.height - y,
    {
        let mut x: u32 = 0;
        while x < space.width
            invariant
                x <= space.width,
                y < space.height,
                page@.len() == width * height * 4,
                width * height * 4 <= u32::MAX,
                space.right() <= width,
                space.bottom() <= height,
                scaled == (data_width != space.width || data_height != space.height),
                data@.len() == total,
                space.is_empty() || (data_width >= 1 && data_height >= 1 && data@.len()
                    >= data_width * data_height * 4),
                forall|px: int, py: int, c: int|
                    0 <= px < width && 0 <= py < height && 0 <= c < 4 ==> #[trigger] channel(
                        page@,
                        width as int,
                        px,
                        py,
                        c,
                    ) == if (space.x <= px < space.right() && space.y <= py < space.y + y) || (py
                        == space.y + y && space.x <= px < space.x + x) {
                        sampled(
                            data@,
                            data_width,
                            data_height,
                            *space,
                            px - space.x,
                            py - space.y,
                            c,
                        )
                    } else {
                        channel(old(page)@, width as int, px, py, c)
                    },
            decreases space.width - x,
        {
            let from_x = source_index(x, space.width, data_width, scaled);
            let from_y = source_index(y, space.height, data_height, scaled);
            proof {
                lemma_texel_bounds(
                    data_width as int,
                    data_height as int,
                    from_x as int,
                    from_y as int,
                );
            }
            let from: usize = ((from_y as usize) * (data_width as usize) + (from_x as usize)) * 4;
            let bytes = (data[from], data[from + 1], data[from + 2], data[from + 3]);
            put_texel(page, width, height, space.x + x, space.y + y, bytes);
            x += 1;
        }
        y += 1;
    }
}

/// Byte `c` of texel `(px, py)` of page `layer` after the rectangles of
/// `spaces` were painted over `pages` one after the other, rectangle `i` in
/// the colour `colors[i]`.
pub open spec fn painted(
    pages: Seq<Seq<u8>>,
    width: int,
    spaces: Seq<TexturePackerSpace>,
    colors: Seq<u32>,
    layer: int,
    px: int,
    py: int,
    c: int,
) -> u8 {
    let i = covering(spaces, layer, px, py);
    if i >= 0 {
        color_byte(colors[i], c)
    } else {
        channel(pages[layer], width, px, py, c)
    }
}

/// The bytes of a list of pages, page by page.
pub open spec fn bytes_of(layers: Seq<Vec<u8>>) -> Seq<Seq<u8>> {
    Seq::new(layers.len(), |l: int| layers[l]@)
}

/// Sets every byte of every page to zero.
pub fn clear_pages(layers: &mut Vec<Vec<u8>>)
    ensures
        final(layers)@.len() == old(layers)@.len(),
        forall|l: int|
            0 <= l < final(layers)@.len() ==> (#[trigger] final(layers)@[l])@.len() == old(
                layers,
            )@[l]@.len(),
        forall|l: int, i: int|
            0 <= l < final(layers)@.len() && 0 <= i < final(layers)@[l]@.len()
                ==> #[trigger] final(layers)@[l]@[i] == 0,
{
    let mut l: usize = 0;
    while l < layers.len()
        invariant
            l <= layers@.len(),
            layers@.len() == old(layers)@.len(),
            forall|k: int|
                0 <= k < layers@.len() ==> (#[trigger] layers@[k])@.len() == old(layers)@[k]@.len(),
            forall|k: int, i: int|
                0 <= k < l && 0 <= i < layers@[k]@.len() ==> #[trigger] layers@[k]@[i] == 0,
        decreases layers@.len() - l,
    {
        clear_bytes(&mut layers[l]);
        l += 1;
    }
}

/// Paints the rectangles of `spaces` over the pages one after the other,
/// rectangle `i` in the colour `colors[i]`.
pub fn paint_spaces(
    layers: &mut Vec<Vec<u8>>,
    width: u32,
    height: u32,
    spaces: &Vec<TexturePackerSpace>,
    colors: &Vec<u32>,
)
    requires
        width * height * 4 <= u32::MAX,
        forall|l: int|
            0 <= l < old(layers)@.len() ==> (#[trigger] old(layers)@[l])@.len() == width * height
                * 4,
        forall|i: int|
            0 <= i < spaces@.len() ==> (#[trigger] spaces@[i]).within(
                width as int,
                height as int,
                old(layers)@.len() as int,
            ),
        colors@.len() == spaces@.len(),
    ensures
        final(layers)@.len() == old(layers)@.len(),
        forall|l: int|
            0 <= l < final(layers)@.len() ==> (#[trigger] final(layers)@[l])@.len() == width
                * height * 4,
        forall|l: int, px: int, py: int, c: int|
            0 <= l < final(layers)@.len() && 0 <= px < width && 0 <= py < height && 0 <= c < 4
                ==> #[trigger] channel(final(layers)@[l]@, width as int, px, py, c) == painted(
                bytes_of(old(layers)@),
                width as int,
                spaces@,
                colors@,
                l,
                px,
                py,
                c,
            ),
{
    let mut i: usize = 0;
    while i < spaces.len()
        invariant
            i <= spaces@.len(),
            width * height * 4 <= u32::MAX,
            layers@.len() == old(layers)@.len(),
            forall|l: int|
                0 <= l < layers@.len() ==> (#[trigger] layers@[l])@.len() == width * height * 4,
            forall|k: int|
                0 <= k < spaces@.len() ==> (#[trigger] spaces@[k]).within(
                    width as int,
                    height as int,
                    layers@.len() as int,
                ),
            colors@.len() == spaces@.len(),
            forall|l: int, px: int, py: int, c: int|
                0 <= l < layers@.len() && 0 <= px < width && 0 <= py < height && 0 <= c < 4
                    ==> #[trigger] channel(layers@[l]@, width as int, px, py, c) == painted(
                    bytes_of(old(layers)@),
                    width as int,
                    spaces@.take(i as int),
                    colors@,
                    l,
                    px,
                    py,
                    c,
                ),
        decreases spaces@.len() - i,
    {
        let space = spaces[i];
        let ghost before = layers@;
        assert(spaces@[i as int].within(width as int, height as int, layers@.len() as int));
        fill_space(&mut layers[space.layer as usize], width, height, &space, colors[i]);
        proof {
            let done = spaces@.take(i as int);
            let next = spaces@.take(i + 1);
            assert(next.drop_last() =~= done);
            assert(next.last() == space);
            assert forall|l: int, px: int, py: int, c: int|
                0 <= l < layers@.len() && 0 <= px < width && 0 <= py < height && 0 <= c
                    < 4 implies #[trigger] channel(layers@[l]@, width as int, px, py, c) == painted(
                bytes_of(old(layers)@),
                width as int,
                next,
                colors@,
                l,
                px,
                py,
                c,
            ) by {
                assert(channel(before[l]@, width as int, px, py, c) == painted(
                    bytes_of(old(layers)@),
                    width as int,
                    done,
                    colors@,
                    l,
                    px,
                    py,
                    c,
                ));
                if l != space.layer {
                    assert(layers@[l] == before[l]);
                }
            }
        }
        i += 1;
    }
    assert(spaces@.take(spaces@.len() as int) =~= spaces@);
}

} // verus!
