//! Pixel work behind the sprite atlas: stacking a farmer's layers, recoloring
//! skin, finding what part of a frame holds anything, and packing sprites onto
//! shelves of one texture.
//!
//! A pixel is `[r, g, b, a]`; an image is its pixels row by row.
use vstd::prelude::*;

verus! {

/// Side of one terrain tile, in source pixels.
pub const TILE: u16 = 16;

/// Side of one character frame in the pack's sheets. The figure occupies
/// roughly the middle third; the rest is room for tool swings and mounts.
pub const FRAME: u16 = 64;

/// Frames per animation row that the poses use.
pub const STEPS: usize = 6;

/// Distinct farmers baked into the atlas.
pub const LOOKS: usize = 24;

/// One channel of `above` laid over `under` with `above`'s alpha `a`.
pub open spec fn blend_channel(under: u8, above: u8, a: u8) -> int {
    (above as int * a as int + under as int * (255 - a as int)) / 255
}

/// `out` is `above` laid over `under`: a clear pixel leaves what is under it,
/// an opaque one replaces it, and one in between blends each color channel
/// by its alpha and keeps the larger alpha.
pub open spec fn laid_over(under: [u8; 4], above: [u8; 4], out: [u8; 4]) -> bool {
    if above[3] == 0 {
        out == under
    } else if above[3] == 255 {
        out == above
    } else {
        &&& forall|k: int| 0 <= k < 3 ==> out[k] as int == blend_channel(under[k], above[k], above[3])
        &&& out[3] == (if under[3] >= above[3] {
            under[3]
        } else {
            above[3]
        })
    }
}

/// One channel blended by alpha.
fn blend(under: u8, above: u8, a: u8) -> (r: u8)
    ensures
        r as int == blend_channel(under, above, a),
{
    let inv: u32 = 255 - a as u32;
    assert(above as int * a as int <= 255 * 255 && under as int * inv as int <= 255 * 255
        && above as int * a as int + under as int * inv as int <= 255 * 255) by (nonlinear_arith)
        requires
            inv == 255 - a as u32,
            a <= 255,
            above <= 255,
            under <= 255,
    ;
    let mixed: u32 = above as u32 * a as u32 + under as u32 * inv;
    (mixed / 255) as u8
}

/// Lays one pixel over another.
pub fn over_pixel(under: [u8; 4], above: [u8; 4]) -> (r: [u8; 4])
    ensures
        laid_over(under, above, r),
{
    let a = above[3];
    if a == 0 {
        under
    } else if a == 255 {
        above
    } else {
        let alpha = if under[3] >= a {
            under[3]
        } else {
            a
        };
        let out = [blend(under[0], above[0], a), blend(under[1], above[1], a), blend(under[2], above[2], a), alpha];
        assert forall|k: int| 0 <= k < 3 implies out[k] as int == blend_channel(
            under[k],
            above[k],
            a,
        ) by {
            if k == 0 {
            } else if k == 1 {
            } else {
            }
        }
        out
    }
}

/// Alpha-over composite of two images of the same size: each pixel of `dst`
/// gets the matching pixel of `src` laid over it.
pub fn over(dst: &mut Vec<[u8; 4]>, src: &[[u8; 4]])
    ensures
        final(dst)@.len() == old(dst)@.len(),
        forall|i: int|
            0 <= i < old(dst)@.len() ==> if i < src@.len() {
                laid_over(old(dst)@[i], src@[i], #[trigger] final(dst)@[i])
            } else {
                final(dst)@[i] == old(dst)@[i]
            },
{
    let n = if dst.len() < src.len() {
        dst.len()
    } else {
        src.len()
    };
    let mut i: usize = 0;
    while i < n
        invariant
            n <= dst@.len(),
            n <= src@.len(),
            n == (if old(dst)@.len() < src@.len() {
                old(dst)@.len()
            } else {
                src@.len()
            }),
            dst@.len() == old(dst)@.len(),
            i <= n,
            forall|j: int| 0 <= j < i ==> laid_over(old(dst)@[j], src@[j], #[trigger] dst@[j]),
            forall|j: int| i <= j < dst@.len() ==> #[trigger] dst@[j] == old(dst)@[j],
        decreases n - i,
    {
        let px = over_pixel(dst[i], src[i]);
        dst[i] = px;
        i = i + 1;
    }
}

/// The pack's skin colors, light then shadow, as `0xRRGGBB`.
pub open spec fn skin_source(k: int) -> u32 {
    if k == 0 {
        0xf6ca9f
    } else {
        0xd29f70
    }
}

/// Skin tone `t`'s light (`k == 0`) or shadow (`k == 1`) color, as
/// `0xRRGGBB`. Tone 0 is the pack's own.
pub open spec fn skin_tone(t: int, k: int) -> u32 {
    if t == 0 {
        if k == 0 { 0xf6ca9f } else { 0xd29f70 }
    } else if t == 1 {
        if k == 0 { 0xe8b483 } else { 0xc08e5c }
    } else if t == 2 {
        if k == 0 { 0xd19a6e } else { 0xa8744c }
    } else if t == 3 {
        if k == 0 { 0xa9714a } else { 0x825334 }
    } else if t == 4 {
        if k == 0 { 0x7a4f33 } else { 0x5a3823 }
    } else {
        if k == 0 { 0xfbdcbb } else { 0xdcb489 }
    }
}

/// The color of a pixel, as `0xRRGGBB`.
pub open spec fn rgb_of(px: [u8; 4]) -> u32 {
    (px[0] as u32) << 16u32 | (px[1] as u32) << 8u32 | px[2] as u32
}

/// A pixel with its color replaced by `to`, keeping its alpha.
pub open spec fn with_rgb(px: [u8; 4], to: u32) -> [u8; 4] {
    [(to >> 16u32) as u8, (to >> 8u32) as u8, to as u8, px[3]]
}

/// A pixel of the pack's skin, recolored to tone `t`; anything clear, and
/// anything that is not skin, is left alone.
pub open spec fn recolored(px: [u8; 4], t: int) -> [u8; 4] {
    if px[3] == 0 {
        px
    } else if rgb_of(px) == skin_source(0) {
        with_rgb(px, skin_tone(t, 0))
    } else if rgb_of(px) == skin_source(1) {
        with_rgb(px, skin_tone(t, 1))
    } else {
        px
    }
}

/// One skin tone's light or shadow color.
fn tone_color(t: usize, k: usize) -> (r: u32)
    ensures
        r == skin_tone(t as int, k as int),
{
    if t == 0 {
        if k == 0 { 0xf6ca9f } else { 0xd29f70 }
    } else if t == 1 {
        if k == 0 { 0xe8b483 } else { 0xc08e5c }
    } else if t == 2 {
        if k == 0 { 0xd19a6e } else { 0xa8744c }
    } else if t == 3 {
        if k == 0 { 0xa9714a } else { 0x825334 }
    } else if t == 4 {
        if k == 0 { 0x7a4f33 } else { 0x5a3823 }
    } else {
        if k == 0 { 0xfbdcbb } else { 0xdcb489 }
    }
}

/// Recolors the pack's skin to farmer `n`'s tone, one of six chosen by
/// `(n / 5) % 6`. Only skin changes: the outline, clothes and alpha stay.
pub fn recolor_skin(src: &[[u8; 4]], n: usize) -> (r: Vec<[u8; 4]>)
    ensures
        r@.len() == src@.len(),
        forall|i: int| 0 <= i < src@.len() ==> #[trigger] r@[i] == recolored(src@[i], ((n / 5) % 6) as int),
{
    let tone = (n / 5) % 6;
    let mut out: Vec<[u8; 4]> = Vec::new();
    let mut i: usize = 0;
    while i < src.len()
        invariant
            tone == (n / 5) % 6,
            i <= src@.len(),
            out@.len() == i,
            forall|j: int| 0 <= j < i ==> #[trigger] out@[j] == recolored(src@[j], tone as int),
        decreases src@.len() - i,
    {
        let px = src[i];
        let next = if px[3] == 0 {
            px
        } else {
            let rgb = (px[0] as u32) << 16u32 | (px[1] as u32) << 8u32 | px[2] as u32;
            if rgb == 0xf6ca9f || rgb == 0xd29f70 {
                let k: usize = if rgb == 0xf6ca9f {
                    0
                } else {
                    1
                };
                let to = tone_color(tone, k);
                [(to >> 16u32) as u8, (to >> 8u32) as u8, to as u8, px[3]]
            } else {
                px
            }
        };
        out.push(next);
        i = i + 1;
    }
    out
}

/// Whether the pixel at column `x` and row `y` of an image `w` pixels wide
/// holds anything: an alpha above 16.
pub open spec fn solid(px: Seq<[u8; 4]>, w: int, x: int, y: int) -> bool {
    px[y * w + x][3] > 16
}

/// Whether any pixel of an image is more than an eighth opaque, which is
/// what a cell of a prop sheet has to hold to count as a prop.
pub fn shows_anything(px: &[[u8; 4]]) -> (r: bool)
    ensures
        r == exists|i: int| 0 <= i < px@.len() && #[trigger] px@[i][3] > 32,
{
    let mut i: usize = 0;
    while i < px.len()
        invariant
            i <= px@.len(),
            forall|j: int| 0 <= j < i ==> #[trigger] px@[j][3] <= 32,
        decreases px@.len() - i,
    {
        if px[i][3] > 32 {
            return true;
        }
        i = i + 1;
    }
    false
}

/// `b` is the tightest box `(x0, y0, x1, y1)`, ends exclusive, holding every
/// solid pixel of a `w` by `h` image, or `None` where nothing is solid.
pub open spec fn is_bbox(px: Seq<[u8; 4]>, w: int, h: int, b: Option<(u16, u16, u16, u16)>) -> bool {
    match b {
        None => forall|x: int, y: int| 0 <= x < w && 0 <= y < h ==> !solid(px, w, x, y),
        Some((x0, y0, x1, y1)) => {
            &&& forall|x: int, y: int|
                0 <= x < w && 0 <= y < h && solid(px, w, x, y) ==> x0 <= x < x1 && y0 <= y < y1
            &&& exists|x: int, y: int|
                0 <= x < w && 0 <= y < h && solid(px, w, x, y) && x == x0
            &&& exists|x: int, y: int|
                0 <= x < w && 0 <= y < h && solid(px, w, x, y) && x == x1 - 1
            &&& exists|x: int, y: int|
                0 <= x < w && 0 <= y < h && solid(px, w, x, y) && y == y0
            &&& exists|x: int, y: int|
                0 <= x < w && 0 <= y < h && solid(px, w, x, y) && y == y1 - 1
        },
    }
}

proof fn lemma_index_in_image(w: int, h: int, x: int, y: int)
    requires
        0 <= x < w,
        0 <= y < h,
    ensures
        0 <= y * w + x < w * h,
{
    assert(y * w + x < w * h) by (nonlinear_arith)
        requires
            0 <= x < w,
            0 <= y < h,
    ;
    assert(0 <= y * w) by (nonlinear_arith)
        requires
            0 <= y,
            0 <= w,
    ;
}

/// The tightest box holding every pixel with an alpha above 16, or `None`
/// if the image is clear.
pub fn bbox(w: u16, h: u16, px: &[[u8; 4]]) -> (r: Option<(u16, u16, u16, u16)>)
    requires
        w as int * h as int <= px@.len(),
    ensures
        is_bbox(px@, w as int, h as int, r),
{
    let len = px.len();
    let mut x0: u16 = w;
    let mut y0: u16 = h;
    let mut x1: u16 = 0;
    let mut y1: u16 = 0;
    let mut any = false;
    let ghost mut wx0: (int, int) = (0, 0);
    let ghost mut wy0: (int, int) = (0, 0);
    let ghost mut wx1: (int, int) = (0, 0);
    let ghost mut wy1: (int, int) = (0, 0);
    let mut y: u16 = 0;
    while y < h
        invariant
            w as int * h as int <= px@.len(),
            len == px@.len(),
            y <= h,
            !any ==> forall|xx: int, yy: int|
                0 <= xx < w && 0 <= yy < y ==> !solid(px@, w as int, xx, yy),
            any ==> {
                &&& forall|xx: int, yy: int|
                    0 <= xx < w && 0 <= yy < y && solid(px@, w as int, xx, yy) ==> x0 <= xx < x1
                        && y0 <= yy < y1
                &&& 0 <= wx0.0 < w && 0 <= wx0.1 < h && solid(px@, w as int, wx0.0, wx0.1)
                    && wx0.0 == x0
                &&& 0 <= wx1.0 < w && 0 <= wx1.1 < h && solid(px@, w as int, wx1.0, wx1.1)
                    && wx1.0 == x1 - 1
                &&& 0 <= wy0.0 < w && 0 <= wy0.1 < h && solid(px@, w as int, wy0.0, wy0.1)
                    && wy0.1 == y0
                &&& 0 <= wy1.0 < w && 0 <= wy1.1 < h && solid(px@, w as int, wy1.0, wy1.1)
                    && wy1.1 == y1 - 1
            },
        decreases h - y,
    {
        let mut x: u16 = 0;
        while x < w
            invariant
                w as int * h as int <= px@.len(),
                len == px@.len(),
                y < h,
                x <= w,
                !any ==> forall|xx: int, yy: int|
                    0 <= xx < w && 0 <= yy < y ==> !solid(px@, w as int, xx, yy),
                !any ==> forall|xx: int| 0 <= xx < x ==> !solid(px@, w as int, xx, y as int),
                any ==> {
                    &&& forall|xx: int, yy: int|
                        0 <= xx < w && 0 <= yy < y && solid(px@, w as int, xx, yy) ==> x0 <= xx
                            < x1 && y0 <= yy < y1
                    &&& forall|xx: int|
                        0 <= xx < x && solid(px@, w as int, xx, y as int) ==> x0 <= xx < x1 && y0
                            <= y < y1
                    &&& 0 <= wx0.0 < w && 0 <= wx0.1 < h && solid(px@, w as int, wx0.0, wx0.1)
                        && wx0.0 == x0
                    &&& 0 <= wx1.0 < w && 0 <= wx1.1 < h && solid(px@, w as int, wx1.0, wx1.1)
                        && wx1.0 == x1 - 1
                    &&& 0 <= wy0.0 < w && 0 <= wy0.1 < h && solid(px@, w as int, wy0.0, wy0.1)
                        && wy0.1 == y0
                    &&& 0 <= wy1.0 < w && 0 <= wy1.1 < h && solid(px@, w as int, wy1.0, wy1.1)
                        && wy1.1 == y1 - 1
                },
            decreases w - x,
        {
            proof {
                lemma_index_in_image(w as int, h as int, x as int, y as int);
                assert(0 <= y as int * w as int);
                assert(len <= usize::MAX);
            }
            let idx: usize = y as usize * w as usize + x as usize;
            if px[idx][3] > 16 {
                if !any {
                    x0 = x;
                    y0 = y;
                    x1 = x + 1;
                    y1 = y + 1;
                    proof {
                        wx0 = (x as int, y as int);
                        wy0 = (x as int, y as int);
                        wx1 = (x as int, y as int);
                        wy1 = (x as int, y as int);
                    }
                    any = true;
                } else {
                    if x < x0 {
                        x0 = x;
                        proof {
                            wx0 = (x as int, y as int);
                        }
                    }
                    if y < y0 {
                        y0 = y;
                        proof {
                            wy0 = (x as int, y as int);
                        }
                    }
                    if x + 1 > x1 {
                        x1 = x + 1;
                        proof {
                            wx1 = (x as int, y as int);
                        }
                    }
                    if y + 1 > y1 {
                        y1 = y + 1;
                        proof {
                            wy1 = (x as int, y as int);
                        }
                    }
                }
            }
            x = x + 1;
        }
        y = y + 1;
    }
    if any {
        Some((x0, y0, x1, y1))
    } else {
        None
    }
}

/// The smallest box holding every box in the list, starting from an empty
/// box spanning nothing of a frame.
pub open spec fn union_of(boxes: Seq<Option<(u16, u16, u16, u16)>>) -> (int, int, int, int)
    decreases boxes.len(),
{
    if boxes.len() == 0 {
        (FRAME as int, FRAME as int, 0, 0)
    } else {
        let u = union_of(boxes.drop_last());
        match boxes.last() {
            None => u,
            Some(b) => (
                if b.0 < u.0 { b.0 as int } else { u.0 },
                if b.1 < u.1 { b.1 as int } else { u.1 },
                if b.2 > u.2 { b.2 as int } else { u.2 },
                if b.3 > u.3 { b.3 as int } else { u.3 },
            ),
        }
    }
}

/// A box grown by a pixel on every side, kept inside a frame.
pub open spec fn with_margin(u: (int, int, int, int)) -> (int, int, int, int) {
    (
        if u.0 > 0 { u.0 - 1 } else { 0 },
        if u.1 > 0 { u.1 - 1 } else { 0 },
        if u.2 + 1 < FRAME { u.2 + 1 } else { FRAME as int },
        if u.3 + 1 < FRAME { u.3 + 1 } else { FRAME as int },
    )
}

proof fn lemma_union_bounds(boxes: Seq<Option<(u16, u16, u16, u16)>>)
    ensures
        ({
            let u = union_of(boxes);
            &&& 0 <= u.0 <= FRAME && 0 <= u.1 <= FRAME && 0 <= u.2 && 0 <= u.3
            &&& forall|i: int|
                0 <= i < boxes.len() && #[trigger] boxes[i] is Some ==> u.0 <= boxes[i].unwrap().0
                    && u.1 <= boxes[i].unwrap().1 && boxes[i].unwrap().2 <= u.2 && boxes[i].unwrap().3 <= u.3
            &&& (u.2 == 0 || exists|i: int| 0 <= i < boxes.len() && #[trigger] boxes[i] is Some && boxes[i].unwrap().2 == u.2)
            &&& (u.3 == 0 || exists|i: int| 0 <= i < boxes.len() && #[trigger] boxes[i] is Some && boxes[i].unwrap().3 == u.3)
        }),
    decreases boxes.len(),
{
    if boxes.len() > 0 {
        lemma_union_bounds(boxes.drop_last());
        let u = union_of(boxes.drop_last());
        assert forall|i: int| 0 <= i < boxes.len() - 1 implies #[trigger] boxes[i] == boxes.drop_last()[i] by {}
        if exists|i: int| 0 <= i < boxes.drop_last().len() && #[trigger] boxes.drop_last()[i] is Some && boxes.drop_last()[i].unwrap().2 == u.2 {
            let i = choose|i: int| 0 <= i < boxes.drop_last().len() && #[trigger] boxes.drop_last()[i] is Some && boxes.drop_last()[i].unwrap().2 == u.2;
            assert(boxes[i] == boxes.drop_last()[i]);
        }
        if exists|i: int| 0 <= i < boxes.drop_last().len() && #[trigger] boxes.drop_last()[i] is Some && boxes.drop_last()[i].unwrap().3 == u.3 {
            let i = choose|i: int| 0 <= i < boxes.drop_last().len() && #[trigger] boxes.drop_last()[i] is Some && boxes.drop_last()[i].unwrap().3 == u.3;
            assert(boxes[i] == boxes.drop_last()[i]);
        }
    }
}

/// The tightest box holding every frame's box, with a pixel of margin so a
/// hat or a swinging arm stays off the crop edge, kept inside a frame.
pub fn union_box(boxes: &[Option<(u16, u16, u16, u16)>]) -> (r: (u16, u16, u16, u16))
    requires
        forall|i: int|
            0 <= i < boxes@.len() && #[trigger] boxes@[i] is Some ==> boxes@[i].unwrap().2 < u16::MAX
                && boxes@[i].unwrap().3 < u16::MAX,
    ensures
        (r.0 as int, r.1 as int, r.2 as int, r.3 as int) == with_margin(union_of(boxes@)),
{
    let mut x0: u16 = FRAME;
    let mut y0: u16 = FRAME;
    let mut x1: u16 = 0;
    let mut y1: u16 = 0;
    let mut i: usize = 0;
    while i < boxes.len()
        invariant
            i <= boxes@.len(),
            forall|j: int|
                0 <= j < boxes@.len() && #[trigger] boxes@[j] is Some ==> boxes@[j].unwrap().2 < u16::MAX
                    && boxes@[j].unwrap().3 < u16::MAX,
            (x0 as int, y0 as int, x1 as int, y1 as int) == union_of(boxes@.take(i as int)),
        decreases boxes@.len() - i,
    {
        assert(boxes@.take(i + 1).drop_last() =~= boxes@.take(i as int));
        match boxes[i] {
            Some(b) => {
                if b.0 < x0 {
                    x0 = b.0;
                }
                if b.1 < y0 {
                    y0 = b.1;
                }
                if b.2 > x1 {
                    x1 = b.2;
                }
                if b.3 > y1 {
                    y1 = b.3;
                }
            },
            None => {},
        }
        i = i + 1;
    }
    assert(boxes@.take(boxes@.len() as int) =~= boxes@);
    proof {
        lemma_union_bounds(boxes@);
    }
    let left = if x0 > 0 { x0 - 1 } else { 0 };
    let top = if y0 > 0 { y0 - 1 } else { 0 };
    let right = if x1 < FRAME - 1 { x1 + 1 } else { FRAME };
    let bottom = if y1 < FRAME - 1 { y1 + 1 } else { FRAME };
    (left, top, right, bottom)
}

/// The union box covers every frame's box, as far as a frame reaches.
pub proof fn lemma_union_box_covers_every_frame(boxes: Seq<Option<(u16, u16, u16, u16)>>, i: int)
    requires
        0 <= i < boxes.len(),
        boxes[i] is Some,
    ensures
        ({
            let r = with_margin(union_of(boxes));
            let b = boxes[i]->0;
            &&& r.0 <= b.0 && r.1 <= b.1
            &&& (b.2 <= FRAME ==> b.2 <= r.2)
            &&& (b.3 <= FRAME ==> b.3 <= r.3)
        }),
{
    lemma_union_bounds(boxes);
}

/// Where the pixel at column `x` and row `y` sits in an image `w` pixels wide.
pub open spec fn at(w: int, x: int, y: int) -> int {
    y * w + x
}

/// Whether column `x`, row `y` falls in the `sw` by `sh` block whose top-left
/// corner is at `dx`, `dy`.
pub open spec fn in_block(x: int, y: int, dx: int, dy: int, sw: int, sh: int) -> bool {
    dx <= x < dx + sw && dy <= y < dy + sh
}

/// Two places in a row-by-row image are the same only if column and row are.
proof fn lemma_at_is_one_to_one(w: int, x1: int, y1: int, x2: int, y2: int)
    requires
        0 <= x1 < w,
        0 <= x2 < w,
        at(w, x1, y1) == at(w, x2, y2),
    ensures
        x1 == x2,
        y1 == y2,
{
    if y1 > y2 {
        assert((y1 - y2) * w >= w && (y1 - y2) * w == y1 * w - y2 * w) by (nonlinear_arith)
            requires
                y1 - y2 >= 1,
                w > 0,
        ;
    } else if y2 > y1 {
        assert((y2 - y1) * w >= w && (y2 - y1) * w == y2 * w - y1 * w) by (nonlinear_arith)
            requires
                y2 - y1 >= 1,
                w > 0,
        ;
    }
}

/// Where a place in range falls in an image of `w` by `h`.
proof fn lemma_at_in_range(w: int, h: int, x: int, y: int)
    requires
        0 <= x < w,
        0 <= y < h,
    ensures
        0 <= at(w, x, y) < w * h,
{
    lemma_index_in_image(w, h, x, y);
}

/// Copies a `sw` by `sh` image into a `dw` by `dh` one with its top-left
/// corner at column `dx`, row `dy`. Every pixel under the copy is replaced,
/// and every other is left alone.
pub fn blit(dst: &mut Vec<[u8; 4]>, dw: u16, dh: u16, src: &[[u8; 4]], sw: u16, sh: u16, dx: u16, dy: u16)
    requires
        old(dst)@.len() == dw * dh,
        src@.len() == sw * sh,
        dx + sw <= dw,
        dy + sh <= dh,
    ensures
        final(dst)@.len() == old(dst)@.len(),
        forall|x: int, y: int|
            0 <= x < dw && 0 <= y < dh ==> final(dst)@[#[trigger] at(dw as int, x, y)] == if in_block(
                x,
                y,
                dx as int,
                dy as int,
                sw as int,
                sh as int,
            ) {
                src@[at(sw as int, x - dx, y - dy)]
            } else {
                old(dst)@[at(dw as int, x, y)]
            },
{
    let ghost before = dst@;
    let ghost (w, h, bx, by, bw, bh) = (dw as int, dh as int, dx as int, dy as int, sw as int, sh as int);
    let mut y: u16 = 0;
    while y < sh
        invariant
            dst@.len() == before.len(),
            before.len() == w * h,
            src@.len() == bw * bh,
            w == dw && h == dh && bx == dx && by == dy && bw == sw && bh == sh,
            dx + sw <= dw,
            dy + sh <= dh,
            y <= sh,
            forall|x: int, yy: int|
                0 <= x < w && 0 <= yy < h ==> dst@[#[trigger] at(w, x, yy)] == if in_block(
                    x,
                    yy,
                    bx,
                    by,
                    bw,
                    y as int,
                ) {
                    src@[at(bw, x - bx, yy - by)]
                } else {
                    before[at(w, x, yy)]
                },
        decreases sh - y,
    {
        let mut x: u16 = 0;
        while x < sw
            invariant
                dst@.len() == before.len(),
                before.len() == w * h,
                src@.len() == bw * bh,
                w == dw && h == dh && bx == dx && by == dy && bw == sw && bh == sh,
                dx + sw <= dw,
                dy + sh <= dh,
                y < sh,
                x <= sw,
                forall|xx: int, yy: int|
                    0 <= xx < w && 0 <= yy < h ==> dst@[#[trigger] at(w, xx, yy)] == if in_block(
                        xx,
                        yy,
                        bx,
                        by,
                        bw,
                        y as int,
                    ) || (yy == by + y && bx <= xx < bx + x) {
                        src@[at(bw, xx - bx, yy - by)]
                    } else {
                        before[at(w, xx, yy)]
                    },
            decreases sw - x,
        {
            proof {
                lemma_at_in_range(w, h, (dx + x) as int, (dy + y) as int);
                lemma_at_in_range(bw, bh, x as int, y as int);
            }
            let n: usize = dst.len();
            assert(at(w, (dx + x) as int, (dy + y) as int) < n);
            let row: usize = dy as usize + y as usize;
            assert(row as int * w + (dx + x) == at(w, (dx + x) as int, (dy + y) as int));
            let to: usize = row * dw as usize + dx as usize + x as usize;
            let m: usize = src.len();
            assert(at(bw, x as int, y as int) < m);
            assert(y as int * bw + x == at(bw, x as int, y as int));
            let from: usize = y as usize * sw as usize + x as usize;
            assert(to == at(w, (dx + x) as int, (dy + y) as int));
            assert(from == at(bw, x as int, y as int));
            let px = src[from];
            let ghost prev = dst@;
            dst.set(to, px);
            assert forall|xx: int, yy: int| 0 <= xx < w && 0 <= yy < h implies dst@[#[trigger] at(
                w,
                xx,
                yy,
            )] == if in_block(xx, yy, bx, by, bw, y as int) || (yy == by + y && bx <= xx < bx + x
                + 1) {
                src@[at(bw, xx - bx, yy - by)]
            } else {
                before[at(w, xx, yy)]
            } by {
                lemma_at_in_range(w, h, xx, yy);
                if at(w, xx, yy) == to {
                    lemma_at_is_one_to_one(w, xx, yy, (dx + x) as int, (dy + y) as int);
                } else {
                    assert(dst@[at(w, xx, yy)] == prev[at(w, xx, yy)]);
                }
            }
            x = x + 1;
        }
        y = y + 1;
    }
}

/// Where column `x` of a block of frames each `b` wide, cropped from `start`
/// of each `FRAME`-wide frame, comes from in the sheet: frame `x / b`, at
/// `start` plus `x % b` into it.
pub open spec fn frame_source(x: int, b: int, start: int) -> int {
    (x / b) * FRAME + start + x % b
}

/// Each of the first `below` places of a row-by-row image `w` wide comes
/// before the place at column `x`, row `y`.
proof fn lemma_at_before(w: int, x1: int, y1: int, x2: int, y2: int)
    requires
        0 <= x1 < w,
        0 <= x2 < w,
        y1 < y2 || (y1 == y2 && x1 < x2),
    ensures
        at(w, x1, y1) < at(w, x2, y2),
{
    if y1 < y2 {
        assert(y1 * w + w <= y2 * w) by (nonlinear_arith)
            requires
                y1 < y2,
                w > 0,
        ;
    }
}

/// Frame `x / b` of a sheet of frames, and the column inside it, stay on
/// the sheet.
proof fn lemma_frame_source_in_sheet(x: int, b: int, count: int, start: int, end: int)
    requires
        0 <= x < b * count,
        0 <= start <= end <= FRAME,
        b == end - start,
        0 <= count,
    ensures
        0 <= x / b < count,
        0 <= x % b < b,
        0 <= frame_source(x, b, start) < count * FRAME,
{
    assert(b > 0) by (nonlinear_arith)
        requires
            0 <= x < b * count,
            0 <= b,
            0 <= count,
    ;
    vstd::arithmetic::div_mod::lemma_div_pos_is_pos(x, b);
    vstd::arithmetic::div_mod::lemma_mod_pos_bound(x, b);
    vstd::arithmetic::div_mod::lemma_multiply_divide_lt(x, b, count);
}

/// Lays every frame of a sheet `sw` by `sh`, `cols` across and `rows` down,
/// side by side in one block, each cropped to `box_` (`x0, y0, x1, y1`, ends
/// exclusive), so a frame can be addressed by arithmetic rather than a
/// rectangle per frame. The block is `cols` crops across and `rows` down.
pub fn frames_block(
    sheet: &[[u8; 4]],
    sw: u16,
    sh: u16,
    box_: (u16, u16, u16, u16),
    cols: u16,
    rows: u16,
) -> (r: Vec<[u8; 4]>)
    requires
        sheet@.len() == sw * sh,
        box_.0 <= box_.2 <= FRAME,
        box_.1 <= box_.3 <= FRAME,
        cols * FRAME <= sw,
        rows * FRAME <= sh,
        (box_.2 - box_.0) * cols <= u16::MAX,
        (box_.3 - box_.1) * rows <= u16::MAX,
    ensures
        ({
            let (bw, bh) = ((box_.2 - box_.0) as int, (box_.3 - box_.1) as int);
            let (w, h) = (bw * cols, bh * rows);
            &&& r@.len() == w * h
            &&& forall|x: int, y: int|
                0 <= x < w && 0 <= y < h ==> r@[#[trigger] at(w, x, y)] == sheet@[at(
                    sw as int,
                    frame_source(x, bw, box_.0 as int),
                    frame_source(y, bh, box_.1 as int),
                )]
        }),
{
    let bw: u16 = box_.2 - box_.0;
    let bh: u16 = box_.3 - box_.1;
    let w: u16 = bw * cols;
    let h: u16 = bh * rows;
    let ghost (gw, gh) = (w as int, h as int);
    let mut out: Vec<[u8; 4]> = Vec::new();
    let mut y: u16 = 0;
    while y < h
        invariant
            bw == box_.2 - box_.0 && bh == box_.3 - box_.1,
            w == bw * cols && h == bh * rows,
            gw == w && gh == h,
            sheet@.len() == sw * sh,
            box_.0 <= box_.2 <= FRAME,
            box_.1 <= box_.3 <= FRAME,
            cols * FRAME <= sw,
            rows * FRAME <= sh,
            y <= h,
            out@.len() == y * gw,
            forall|xx: int, yy: int|
                0 <= xx < gw && 0 <= yy < y ==> out@[#[trigger] at(gw, xx, yy)] == sheet@[at(
                    sw as int,
                    frame_source(xx, bw as int, box_.0 as int),
                    frame_source(yy, bh as int, box_.1 as int),
                )],
        decreases h - y,
    {
        proof {
            lemma_frame_source_in_sheet(y as int, bh as int, rows as int, box_.1 as int, box_.3 as int);
        }
        let fy: usize = (y / bh) as usize * FRAME as usize + box_.1 as usize + (y % bh) as usize;
        assert(fy == frame_source(y as int, bh as int, box_.1 as int));
        let mut x: u16 = 0;
        while x < w
            invariant
                bw == box_.2 - box_.0 && bh == box_.3 - box_.1,
                w == bw * cols && h == bh * rows,
                gw == w && gh == h,
                sheet@.len() == sw * sh,
                box_.0 <= box_.2 <= FRAME,
                box_.1 <= box_.3 <= FRAME,
                cols * FRAME <= sw,
                rows * FRAME <= sh,
                y < h,
                fy == frame_source(y as int, bh as int, box_.1 as int),
                0 <= fy < sh,
                x <= w,
                out@.len() == y * gw + x,
                forall|xx: int, yy: int|
                    0 <= xx < gw && 0 <= yy < gh && (yy < y || (yy == y && xx < x))
                        ==> out@[#[trigger] at(gw, xx, yy)] == sheet@[at(
                        sw as int,
                        frame_source(xx, bw as int, box_.0 as int),
                        frame_source(yy, bh as int, box_.1 as int),
                    )],
            decreases w - x,
        {
            proof {
                lemma_frame_source_in_sheet(x as int, bw as int, cols as int, box_.0 as int, box_.2 as int);
                lemma_at_in_range(sw as int, sh as int, frame_source(x as int, bw as int, box_.0 as int), fy as int);
            }
            let fx: usize = (x / bw) as usize * FRAME as usize + box_.0 as usize + (x % bw) as usize;
            assert(fx == frame_source(x as int, bw as int, box_.0 as int));
            let m: usize = sheet.len();
            assert(at(sw as int, fx as int, fy as int) < m);
            assert(fy as int * sw + fx == at(sw as int, fx as int, fy as int));
            let from: usize = fy * sw as usize + fx;
            let ghost prev = out@;
            out.push(sheet[from]);
            assert(at(gw, x as int, y as int) == prev.len());
            assert forall|xx: int, yy: int|
                0 <= xx < gw && 0 <= yy < gh && (yy < y || (yy == y && xx < x + 1)) implies out@[#[trigger] at(
                gw,
                xx,
                yy,
            )] == sheet@[at(
                sw as int,
                frame_source(xx, bw as int, box_.0 as int),
                frame_source(yy, bh as int, box_.1 as int),
            )] by {
                if yy < y || (yy == y && xx < x) {
                    lemma_at_before(gw, xx, yy, x as int, y as int);
                    assert(out@[at(gw, xx, yy)] == prev[at(gw, xx, yy)]);
                } else {
                    assert(xx == x && yy == y);
                }
            }
            x = x + 1;
        }
        assert(out@.len() == (y + 1) * gw) by (nonlinear_arith)
            requires
                out@.len() == y * gw + gw,
        ;
        y = y + 1;
    }
    assert(out@.len() == gw * gh) by (nonlinear_arith)
        requires
            out@.len() == gh * gw,
    ;
    out
}

/// The `cw` by `ch` part of an image `w` wide whose top-left corner is at
/// `x0`, `y0`, row by row.
pub open spec fn crop_of(img: Seq<[u8; 4]>, w: int, x0: int, y0: int, cw: int, ch: int) -> Seq<[u8; 4]> {
    Seq::new((cw * ch) as nat, |i: int| img[at(w, x0 + i % cw, y0 + i / cw)])
}

/// A pixel of a crop is the pixel of the image it was cut from.
proof fn lemma_crop_at(img: Seq<[u8; 4]>, w: int, x0: int, y0: int, cw: int, ch: int, x: int, y: int)
    requires
        0 <= x < cw,
        0 <= y < ch,
    ensures
        0 <= at(cw, x, y) < cw * ch,
        crop_of(img, w, x0, y0, cw, ch)[at(cw, x, y)] == img[at(w, x0 + x, y0 + y)],
{
    lemma_at_in_range(cw, ch, x, y);
    vstd::arithmetic::div_mod::lemma_fundamental_div_mod_converse(at(cw, x, y), cw, y, x);
}

/// The `cw` by `ch` part of a `w` by `h` image whose top-left corner is at
/// `x0`, `y0`.
pub fn crop(img: &[[u8; 4]], w: u16, h: u16, x0: u16, y0: u16, cw: u16, ch: u16) -> (r: Vec<[u8; 4]>)
    requires
        img@.len() == w * h,
        x0 + cw <= w,
        y0 + ch <= h,
    ensures
        r@ == crop_of(img@, w as int, x0 as int, y0 as int, cw as int, ch as int),
{
    let ghost (gw, gcw) = (w as int, cw as int);
    let mut out: Vec<[u8; 4]> = Vec::new();
    let mut y: u16 = 0;
    while y < ch
        invariant
            img@.len() == w * h,
            x0 + cw <= w,
            y0 + ch <= h,
            gw == w && gcw == cw,
            y <= ch,
            out@.len() == y * gcw,
            forall|i: int|
                0 <= i < out@.len() ==> #[trigger] out@[i] == img@[at(gw, x0 + i % gcw, y0 + i / gcw)],
        decreases ch - y,
    {
        let mut x: u16 = 0;
        while x < cw
            invariant
                img@.len() == w * h,
                x0 + cw <= w,
                y0 + ch <= h,
                gw == w && gcw == cw,
                y < ch,
                x <= cw,
                out@.len() == y * gcw + x,
                forall|i: int|
                    0 <= i < out@.len() ==> #[trigger] out@[i] == img@[at(gw, x0 + i % gcw, y0 + i / gcw)],
            decreases cw - x,
        {
            proof {
                lemma_at_in_range(gw, h as int, (x0 + x) as int, (y0 + y) as int);
                vstd::arithmetic::div_mod::lemma_fundamental_div_mod_converse(
                    y * gcw + x,
                    gcw,
                    y as int,
                    x as int,
                );
            }
            let n: usize = img.len();
            let row: usize = y0 as usize + y as usize;
            assert(row as int * gw + (x0 + x) == at(gw, (x0 + x) as int, (y0 + y) as int));
            let from: usize = row * w as usize + x0 as usize + x as usize;
            out.push(img[from]);
            x = x + 1;
        }
        assert(out@.len() == (y + 1) * gcw) by (nonlinear_arith)
            requires
                out@.len() == y * gcw + gcw,
        ;
        y = y + 1;
    }
    assert(out@.len() == gcw * ch) by (nonlinear_arith)
        requires
            out@.len() == ch * gcw,
    ;
    assert(out@ =~= crop_of(img@, w as int, x0 as int, y0 as int, cw as int, ch as int));
    out
}

/// An image trimmed to the box `b` of what it holds: the crop and its size,
/// or the image as it was where it holds nothing.
pub open spec fn trim_of(img: Seq<[u8; 4]>, w: int, h: int, b: Option<(u16, u16, u16, u16)>) -> (Seq<[u8; 4]>, int, int) {
    match b {
        Some((x0, y0, x1, y1)) => (
            crop_of(img, w, x0 as int, y0 as int, x1 - x0, y1 - y0),
            x1 - x0,
            y1 - y0,
        ),
        None => (img, w, h),
    }
}

/// A `w` by `h` image trimmed to the tightest box holding every pixel with an
/// alpha above 16, with its new size; a clear image comes back whole.
pub fn trim(img: &[[u8; 4]], w: u16, h: u16) -> (r: (Vec<[u8; 4]>, u16, u16))
    requires
        img@.len() == w * h,
    ensures
        exists|b: Option<(u16, u16, u16, u16)>|
            #[trigger] is_bbox(img@, w as int, h as int, b) && (r.0@, r.1 as int, r.2 as int)
                == trim_of(img@, w as int, h as int, b),
{
    let b = bbox(w, h, img);
    match b {
        Some((x0, y0, x1, y1)) => {
            proof {
                let (ax, ay) = choose|x: int, y: int|
                    0 <= x < w && 0 <= y < h && solid(img@, w as int, x, y) && x == x1 - 1;
                let (bx, by) = choose|x: int, y: int|
                    0 <= x < w && 0 <= y < h && solid(img@, w as int, x, y) && y == y1 - 1;
                assert(x0 <= ax < x1 && y0 <= by < y1);
            }
            let out = crop(img, w, h, x0, y0, x1 - x0, y1 - y0);
            (out, x1 - x0, y1 - y0)
        },
        None => (vstd::slice::slice_to_vec(img), w, h),
    }
}

/// Whether the `size`-square cell at column `c`, row `r` of a sheet `w` wide
/// holds anything.
pub open spec fn cell_holds(sheet: Seq<[u8; 4]>, w: int, size: int, c: int, r: int) -> bool {
    exists|x: int, y: int|
        0 <= x < size && 0 <= y < size && #[trigger] solid(sheet, w, c * size + x, r * size + y)
}

/// Whether the cell at column `c`, row `r` is the first holding anything,
/// reading a sheet of `cols` by `rows` cells row by row.
pub open spec fn first_holding(sheet: Seq<[u8; 4]>, w: int, size: int, cols: int, rows: int, c: int, r: int) -> bool {
    &&& 0 <= c < cols && 0 <= r < rows
    &&& cell_holds(sheet, w, size, c, r)
    &&& forall|c2: int, r2: int|
        0 <= c2 < cols && 0 <= r2 < rows && (r2 < r || (r2 == r && c2 < c)) ==> !#[trigger] cell_holds(
            sheet,
            w,
            size,
            c2,
            r2,
        )
}

/// What comes of a sheet `w` by `h` read as `size`-square cells: the first
/// cell holding anything, trimmed to what it holds, or the whole sheet where
/// no cell holds anything.
pub open spec fn first_sprite_of(sheet: Seq<[u8; 4]>, w: int, h: int, size: int, out: (Seq<[u8; 4]>, int, int)) -> bool {
    let (cols, rows) = (w / size, h / size);
    ||| exists|c: int, r: int, b: Option<(u16, u16, u16, u16)>|
        #![trigger first_holding(sheet, w, size, cols, rows, c, r), is_bbox(crop_of(sheet, w, c * size, r * size, size, size), size, size, b)]
        {
            &&& first_holding(sheet, w, size, cols, rows, c, r)
            &&& is_bbox(crop_of(sheet, w, c * size, r * size, size, size), size, size, b)
            &&& out == trim_of(crop_of(sheet, w, c * size, r * size, size, size), size, size, b)
        }
    ||| {
        &&& forall|c: int, r: int| 0 <= c < cols && 0 <= r < rows ==> !#[trigger] cell_holds(sheet, w, size, c, r)
        &&& out == (sheet, w, h)
    }
}

/// A cell's crop holds something exactly when the cell does.
proof fn lemma_cell_crop_holds(sheet: Seq<[u8; 4]>, w: int, size: int, c: int, r: int)
    requires
        size > 0,
    ensures
        (forall|x: int, y: int|
            0 <= x < size && 0 <= y < size ==> !#[trigger] solid(
                crop_of(sheet, w, c * size, r * size, size, size),
                size,
                x,
                y,
            )) <==> !cell_holds(sheet, w, size, c, r),
{
    let cell = crop_of(sheet, w, c * size, r * size, size, size);
    if cell_holds(sheet, w, size, c, r) {
        let (x, y) = choose|x: int, y: int|
            0 <= x < size && 0 <= y < size && #[trigger] solid(sheet, w, c * size + x, r * size + y);
        lemma_crop_at(sheet, w, c * size, r * size, size, size, x, y);
        assert(solid(cell, size, x, y));
    } else {
        assert forall|x: int, y: int| 0 <= x < size && 0 <= y < size implies !#[trigger] solid(
            cell,
            size,
            x,
            y,
        ) by {
            lemma_crop_at(sheet, w, c * size, r * size, size, size, x, y);
            assert(!solid(sheet, w, c * size + x, r * size + y));
        }
    }
}

/// The first `size`-square cell of a `w` by `h` sheet holding anything,
/// reading row by row, trimmed to what it holds, with its size; the whole
/// sheet where no cell holds anything.
pub fn first_sprite(sheet: &[[u8; 4]], w: u16, h: u16, size: u16) -> (r: (Vec<[u8; 4]>, u16, u16))
    requires
        sheet@.len() == w * h,
        size > 0,
    ensures
        first_sprite_of(sheet@, w as int, h as int, size as int, (r.0@, r.1 as int, r.2 as int)),
{
    let rows: u16 = h / size;
    let cols: u16 = w / size;
    let ghost (gw, gs, gcols, grows) = (w as int, size as int, cols as int, rows as int);
    let mut r: u16 = 0;
    while r < rows
        invariant
            sheet@.len() == w * h,
            size > 0,
            rows == h / size && cols == w / size,
            gw == w && gs == size && gcols == cols && grows == rows,
            r <= rows,
            forall|c2: int, r2: int|
                0 <= c2 < gcols && 0 <= r2 < r ==> !#[trigger] cell_holds(sheet@, gw, gs, c2, r2),
        decreases rows - r,
    {
        let mut c: u16 = 0;
        while c < cols
            invariant
                sheet@.len() == w * h,
                size > 0,
                rows == h / size && cols == w / size,
                gw == w && gs == size && gcols == cols && grows == rows,
                r < rows,
                c <= cols,
                forall|c2: int, r2: int|
                    0 <= c2 < gcols && 0 <= r2 < grows && (r2 < r || (r2 == r && c2 < c))
                        ==> !#[trigger] cell_holds(sheet@, gw, gs, c2, r2),
            decreases cols - c,
        {
            proof {
                vstd::arithmetic::div_mod::lemma_fundamental_div_mod(w as int, size as int);
                vstd::arithmetic::div_mod::lemma_fundamental_div_mod(h as int, size as int);
                vstd::arithmetic::div_mod::lemma_mod_pos_bound(w as int, size as int);
                vstd::arithmetic::div_mod::lemma_mod_pos_bound(h as int, size as int);
                assert((c + 1) * gs <= gcols * gs && (r + 1) * gs <= grows * gs) by (nonlinear_arith)
                    requires
                        c + 1 <= gcols,
                        r + 1 <= grows,
                        gs > 0,
                ;
                assert(c * gs + gs <= w && r * gs + gs <= h) by (nonlinear_arith)
                    requires
                        (c + 1) * gs <= gcols * gs,
                        (r + 1) * gs <= grows * gs,
                        w == gs * gcols + (w as int) % gs,
                        h == gs * grows + (h as int) % gs,
                        (w as int) % gs >= 0,
                        (h as int) % gs >= 0,
                ;
            }
            let x0: u16 = c * size;
            let y0: u16 = r * size;
            let one = crop(sheet, w, h, x0, y0, size, size);
            proof {
                lemma_cell_crop_holds(sheet@, gw, gs, c as int, r as int);
            }
            let found = bbox(size, size, one.as_slice());
            match found {
                Some(_) => {
                    let out = trim(one.as_slice(), size, size);
                    proof {
                        let b = choose|b: Option<(u16, u16, u16, u16)>|
                            #[trigger] is_bbox(one@, size as int, size as int, b) && (out.0@, out.1 as int, out.2 as int)
                                == trim_of(one@, size as int, size as int, b);
                        assert(first_holding(sheet@, gw, gs, gcols, grows, c as int, r as int));
                        assert(is_bbox(crop_of(sheet@, gw, c * gs, r * gs, gs, gs), gs, gs, b));
                    }
                    return out;
                },
                None => {},
            }
            c = c + 1;
        }
        r = r + 1;
    }
    (vstd::slice::slice_to_vec(sheet), w, h)
}

/// Whether column `x`, row `y` lies within `r` of `(cx, cy)`; nothing does
/// for a negative `r`.
pub open spec fn in_disc(x: int, y: int, cx: int, cy: int, r: int) -> bool {
    r >= 0 && (x - cx) * (x - cx) + (y - cy) * (y - cy) <= r * r
}

/// A point within `r` of a center is within `r` of it on each axis.
proof fn lemma_disc_within_square(x: int, y: int, cx: int, cy: int, r: int)
    requires
        in_disc(x, y, cx, cy, r),
    ensures
        -r <= x - cx <= r,
        -r <= y - cy <= r,
{
    let (a, b) = (x - cx, y - cy);
    assert(a * a <= r * r && b * b <= r * r) by (nonlinear_arith)
        requires
            a * a + b * b <= r * r,
    ;
    assert(-r <= a <= r) by (nonlinear_arith)
        requires
            a * a <= r * r,
            r >= 0,
    ;
    assert(-r <= b <= r) by (nonlinear_arith)
        requires
            b * b <= r * r,
            r >= 0,
    ;
}

/// Paints every pixel within `r` of `(cx, cy)` of a `w` by `h` image with
/// `px`; the part of the disc off the image is dropped, and every other pixel
/// is left alone.
pub fn disc(img: &mut Vec<[u8; 4]>, w: u16, h: u16, cx: i32, cy: i32, r: i32, px: [u8; 4])
    requires
        old(img)@.len() == w * h,
        r <= 0x4000,
        -0x4000_0000 <= cx <= 0x4000_0000,
        -0x4000_0000 <= cy <= 0x4000_0000,
    ensures
        final(img)@.len() == old(img)@.len(),
        forall|x: int, y: int|
            0 <= x < w && 0 <= y < h ==> final(img)@[#[trigger] at(w as int, x, y)] == if in_disc(
                x,
                y,
                cx as int,
                cy as int,
                r as int,
            ) {
                px
            } else {
                old(img)@[at(w as int, x, y)]
            },
{
    if r < 0 {
        return ;
    }
    let ghost before = img@;
    let ghost (gw, gh) = (w as int, h as int);
    let mut dy: i32 = -r;
    assert forall|x: int, y: int| in_disc(x, y, cx as int, cy as int, r as int) implies y - cy >= dy by {
        lemma_disc_within_square(x, y, cx as int, cy as int, r as int);
    }
    while dy <= r
        invariant
            img@.len() == before.len(),
            before.len() == gw * gh,
            gw == w && gh == h,
            0 <= r <= 0x4000,
            -0x4000_0000 <= cx <= 0x4000_0000,
            -0x4000_0000 <= cy <= 0x4000_0000,
            -r <= dy <= r + 1,
            forall|x: int, y: int|
                0 <= x < gw && 0 <= y < gh ==> img@[#[trigger] at(gw, x, y)] == if in_disc(
                    x,
                    y,
                    cx as int,
                    cy as int,
                    r as int,
                ) && y - cy < dy {
                    px
                } else {
                    before[at(gw, x, y)]
                },
        decreases r + 1 - dy,
    {
        let mut dx: i32 = -r;
        assert forall|x: int, y: int| in_disc(x, y, cx as int, cy as int, r as int) implies x - cx >= dx by {
            lemma_disc_within_square(x, y, cx as int, cy as int, r as int);
        }
        while dx <= r
            invariant
                img@.len() == before.len(),
                before.len() == gw * gh,
                gw == w && gh == h,
                0 <= r <= 0x4000,
                -0x4000_0000 <= cx <= 0x4000_0000,
                -0x4000_0000 <= cy <= 0x4000_0000,
                -r <= dy <= r,
                -r <= dx <= r + 1,
                forall|x: int, y: int|
                    0 <= x < gw && 0 <= y < gh ==> img@[#[trigger] at(gw, x, y)] == if in_disc(
                        x,
                        y,
                        cx as int,
                        cy as int,
                        r as int,
                    ) && (y - cy < dy || (y - cy == dy && x - cx < dx)) {
                        px
                    } else {
                        before[at(gw, x, y)]
                    },
            decreases r + 1 - dx,
        {
            assert(0 <= dx * dx <= 0x1000_0000 && 0 <= dy * dy <= 0x1000_0000 && 0 <= r * r
                <= 0x1000_0000)
                by (nonlinear_arith)
                requires
                    -0x4000 <= dx <= 0x4000,
                    -0x4000 <= dy <= 0x4000,
                    0 <= r <= 0x4000,
            ;
            let inside = dx * dx + dy * dy <= r * r;
            let x: i32 = cx + dx;
            let y: i32 = cy + dy;
            let ghost prev = img@;
            if inside && x >= 0 && y >= 0 && x < w as i32 && y < h as i32 {
                proof {
                    lemma_at_in_range(gw, gh, x as int, y as int);
                }
                let n: usize = img.len();
                let row: usize = y as usize;
                assert(row as int * gw + x == at(gw, x as int, y as int));
                let to: usize = row * w as usize + x as usize;
                img.set(to, px);
                assert forall|xx: int, yy: int| 0 <= xx < gw && 0 <= yy < gh implies img@[#[trigger] at(
                    gw,
                    xx,
                    yy,
                )] == if in_disc(xx, yy, cx as int, cy as int, r as int) && (yy - cy < dy || (yy
                    - cy == dy && xx - cx < dx + 1)) {
                    px
                } else {
                    before[at(gw, xx, yy)]
                } by {
                    lemma_at_in_range(gw, gh, xx, yy);
                    if at(gw, xx, yy) == to {
                        lemma_at_is_one_to_one(gw, xx, yy, x as int, y as int);
                    } else {
                        assert(img@[at(gw, xx, yy)] == prev[at(gw, xx, yy)]);
                    }
                }
            } else {
                assert forall|xx: int, yy: int| 0 <= xx < gw && 0 <= yy < gh implies img@[#[trigger] at(
                    gw,
                    xx,
                    yy,
                )] == if in_disc(xx, yy, cx as int, cy as int, r as int) && (yy - cy < dy || (yy
                    - cy == dy && xx - cx < dx + 1)) {
                    px
                } else {
                    before[at(gw, xx, yy)]
                } by {
                    assert(img@[at(gw, xx, yy)] == prev[at(gw, xx, yy)]);
                }
            }
            dx = dx + 1;
        }
        assert forall|x: int, y: int| 0 <= x < gw && 0 <= y < gh implies img@[#[trigger] at(
            gw,
            x,
            y,
        )] == if in_disc(x, y, cx as int, cy as int, r as int) && y - cy < dy + 1 {
            px
        } else {
            before[at(gw, x, y)]
        } by {
            if in_disc(x, y, cx as int, cy as int, r as int) {
                lemma_disc_within_square(x, y, cx as int, cy as int, r as int);
            }
        }
        dy = dy + 1;
    }
    assert forall|x: int, y: int| 0 <= x < gw && 0 <= y < gh implies img@[#[trigger] at(gw, x, y)]
        == if in_disc(x, y, cx as int, cy as int, r as int) {
        px
    } else {
        before[at(gw, x, y)]
    } by {
        if in_disc(x, y, cx as int, cy as int, r as int) {
            lemma_disc_within_square(x, y, cx as int, cy as int, r as int);
        }
    }
}

/// Whether two rectangles `(x, y, w, h)` have at least one clear pixel
/// between them, across or down.
pub open spec fn apart(a: (int, int, int, int), b: (int, int, int, int)) -> bool {
    a.0 + a.2 < b.0 || b.0 + b.2 < a.0 || a.1 + a.3 < b.1 || b.1 + b.3 < a.1
}

/// A shelf packer: fills a row left to right, and drops to a new row when the
/// next sprite will not fit. Sprites are kept a pixel apart.
pub struct Packer {
    width: u16,
    height: u16,
    x: u16,
    y: u16,
    shelf: u16,
    placed: Ghost<Seq<(int, int, int, int)>>,
}

impl Packer {
    /// The atlas's width.
    pub closed spec fn width(&self) -> u16 {
        self.width
    }

    /// The atlas's height.
    pub closed spec fn height(&self) -> u16 {
        self.height
    }

    /// Where the next sprite goes if it fits on the current shelf.
    pub closed spec fn cursor(&self) -> (u16, u16) {
        (self.x, self.y)
    }

    /// The height of the tallest sprite on the current shelf.
    pub closed spec fn shelf_height(&self) -> u16 {
        self.shelf
    }

    /// Every sprite placed so far, as `(x, y, w, h)`, in order.
    pub closed spec fn placed(&self) -> Seq<(int, int, int, int)> {
        self.placed@
    }

    /// Sprites on earlier shelves end above the current one; sprites on the
    /// current shelf end left of the cursor and are no taller than the shelf.
    pub closed spec fn wf(&self) -> bool {
        &&& forall|i: int, j: int|
            0 <= i < j < self.placed@.len() ==> apart(self.placed@[i], self.placed@[j])
        &&& forall|i: int|
            0 <= i < self.placed@.len() ==> {
                let r = #[trigger] self.placed@[i];
                &&& 0 <= r.0 && 0 <= r.1 && 0 <= r.2 && 0 <= r.3
                &&& r.1 + r.3 <= self.height
                &&& r.2 <= self.width ==> r.0 + r.2 <= self.width
                &&& (r.1 + r.3 < self.y || (r.1 == self.y && r.0 + r.2 < self.x && r.3
                    <= self.shelf))
            }
    }

    /// Whether a `w` by `h` sprite can be placed: it fits below the last
    /// shelf, and no coordinate runs past what a `u16` holds.
    pub open spec fn fits(&self, w: u16, h: u16) -> bool {
        let (x, y) = self.cursor();
        if x + w > self.width() {
            &&& x + w <= u16::MAX
            &&& y + self.shelf_height() + 1 + h <= self.height()
            &&& w + 1 <= u16::MAX
        } else {
            &&& y + h <= self.height()
            &&& x + w + 1 <= u16::MAX
        }
    }

    /// An empty atlas of `w` by `h` pixels.
    pub fn new(w: u16, h: u16) -> (r: Packer)
        ensures
            r.wf(),
            r.width() == w,
            r.height() == h,
            r.cursor() == (0u16, 0u16),
            r.shelf_height() == 0,
            r.placed() == Seq::<(int, int, int, int)>::empty(),
    {
        Packer { width: w, height: h, x: 0, y: 0, shelf: 0, placed: Ghost(Seq::empty()) }
    }

    /// Where the next sprite goes if it fits on the current shelf.
    pub fn cursor_at(&self) -> (r: (u16, u16))
        ensures
            r == self.cursor(),
    {
        (self.x, self.y)
    }

    /// The height of the tallest sprite on the current shelf.
    pub fn shelf(&self) -> (r: u16)
        ensures
            r == self.shelf_height(),
    {
        self.shelf
    }

    /// Whether a `w` by `h` sprite can be placed.
    pub fn has_room(&self, w: u16, h: u16) -> (r: bool)
        ensures
            r == self.fits(w, h),
    {
        if self.x as u32 + w as u32 > self.width as u32 {
            self.x as u32 + w as u32 <= u16::MAX as u32 && self.y as u32 + self.shelf as u32 + 1
                + h as u32 <= self.height as u32 && w < u16::MAX
        } else {
            self.y as u32 + h as u32 <= self.height as u32 && (self.x as u32 + w as u32) < u16::MAX
                as u32
        }
    }

    /// Places a `w` by `h` sprite and returns its top-left corner: on the
    /// current shelf if it fits across, else at the start of a new shelf a
    /// pixel below the tallest sprite on this one.
    pub fn place(&mut self, w: u16, h: u16) -> (r: (u16, u16))
        requires
            old(self).wf(),
            old(self).fits(w, h),
        ensures
            final(self).wf(),
            final(self).width() == old(self).width(),
            final(self).height() == old(self).height(),
            r == (if old(self).cursor().0 + w > old(self).width() {
                (0u16, (old(self).cursor().1 + old(self).shelf_height() + 1) as u16)
            } else {
                old(self).cursor()
            }),
            final(self).placed() == old(self).placed().push((r.0 as int, r.1 as int, w as int, h as int)),
            final(self).cursor() == ((r.0 + w + 1) as u16, r.1),
            final(self).shelf_height() == (if old(self).cursor().0 + w > old(self).width() {
                h
            } else if h > old(self).shelf_height() {
                h
            } else {
                old(self).shelf_height()
            }),
            r.1 + h <= final(self).height(),
            w <= final(self).width() ==> r.0 + w <= final(self).width(),
    {
        if self.x + w > self.width {
            self.x = 0;
            self.y = self.y + self.shelf + 1;
            self.shelf = 0;
        }
        let placed = (self.x, self.y);
        let ghost rect = (self.x as int, self.y as int, w as int, h as int);
        self.x = self.x + w + 1;
        if h > self.shelf {
            self.shelf = h;
        }
        let ghost before = self.placed@;
        self.placed = Ghost(self.placed@.push(rect));
        assert forall|i: int, j: int| 0 <= i < j < self.placed@.len() implies apart(
            self.placed@[i],
            self.placed@[j],
        ) by {
            if j == before.len() {
                assert(self.placed@[i] == before[i]);
            } else {
                assert(self.placed@[i] == before[i] && self.placed@[j] == before[j]);
            }
        }
        placed
    }
}

/// No two sprites a packer places overlap or touch: a clear pixel always lies
/// between them, across or down. Each lies inside the atlas: below its top
/// edge and above its bottom one, and, unless wider than the atlas itself,
/// within its sides.
pub proof fn lemma_sprites_never_overlap(p: &Packer, i: int, j: int)
    requires
        p.wf(),
        0 <= i < j < p.placed().len(),
    ensures
        apart(p.placed()[i], p.placed()[j]),
        0 <= p.placed()[i].0 && 0 <= p.placed()[i].1,
        p.placed()[i].1 + p.placed()[i].3 <= p.height(),
        p.placed()[i].2 <= p.width() ==> p.placed()[i].0 + p.placed()[i].2 <= p.width(),
{
}

} // verus!
