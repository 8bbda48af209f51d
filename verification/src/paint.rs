//! Pixels: packing and blending colours, and what is painted of the built-in
//! screen out of whole numbers.
use vstd::prelude::*;

verus! {

/// A colour: red, green and blue.
pub type Rgb = (u8, u8, u8);

/// The colour of the padlock and of the time.
pub const BRIGHT: Rgb = (205, 211, 235);

/// The colour of the date.
pub const FAINT: Rgb = (150, 156, 180);

/// The pixel `0RGB` of three channels.
pub open spec fn packed(r: u8, g: u8, b: u8) -> u32 {
    (r * 0x1_0000 + g * 0x100 + b) as u32
}

/// The red channel of a pixel.
pub open spec fn red(px: u32) -> u8 {
    (px / 0x1_0000 % 0x100) as u8
}

/// The green channel of a pixel.
pub open spec fn green(px: u32) -> u8 {
    (px / 0x100 % 0x100) as u8
}

/// The blue channel of a pixel.
pub open spec fn blue(px: u32) -> u8 {
    (px % 0x100) as u8
}

/// A channel `over` laid on a channel `under`, `alpha` parts of 255 of the one
/// and the rest of the other.
pub open spec fn mixed(under: u8, over: u8, alpha: u8) -> u8 {
    ((under * (255 - alpha) + over * alpha) / 255) as u8
}

/// A colour laid on a pixel.
pub open spec fn blended(px: u32, color: Rgb, alpha: u8) -> u32 {
    packed(
        mixed(red(px), color.0, alpha),
        mixed(green(px), color.1, alpha),
        mixed(blue(px), color.2, alpha),
    )
}

/// Packs three channels into a pixel `0RGB`.
pub fn pack(r: u8, g: u8, b: u8) -> (px: u32)
    ensures
        px == packed(r, g, b),
        px == r * 0x1_0000 + g * 0x100 + b,
{
    let (r, g, b) = (r as u32, g as u32, b as u32);
    assert((r << 16) | (g << 8) | b == r * 0x1_0000 + g * 0x100 + b) by (bit_vector)
        requires
            r <= 255,
            g <= 255,
            b <= 255,
    ;
    (r << 16) | (g << 8) | b
}

/// Takes a pixel apart into its channels; its top byte is of no account.
pub fn unpack(px: u32) -> (color: Rgb)
    ensures
        color == (red(px), green(px), blue(px)),
{
    assert((px >> 16) & 0xff == px / 0x1_0000 % 0x100) by (bit_vector);
    assert((px >> 8) & 0xff == px / 0x100 % 0x100) by (bit_vector);
    assert(px & 0xff == px % 0x100) by (bit_vector);
    assert((px >> 16) & 0xff <= 255) by (bit_vector);
    assert((px >> 8) & 0xff <= 255) by (bit_vector);
    assert(px & 0xff <= 255) by (bit_vector);
    (((px >> 16) & 0xff) as u8, ((px >> 8) & 0xff) as u8, (px & 0xff) as u8)
}

/// Mixes one channel.
pub fn mix(under: u8, over: u8, alpha: u8) -> (out: u8)
    ensures
        out == mixed(under, over, alpha),
        out == (under * (255 - alpha) + over * alpha) / 255,
{
    let (d, s, a) = (under as u32, over as u32, alpha as u32);
    assert(0 <= d * (255 - a) + s * a <= 255 * 255) by (nonlinear_arith)
        requires
            0 <= d <= 255,
            0 <= s <= 255,
            0 <= a <= 255,
    ;
    assert(0 <= d * (255 - a) && 0 <= s * a) by (nonlinear_arith)
        requires
            0 <= d <= 255,
            0 <= s <= 255,
            0 <= a <= 255,
    ;
    ((d * (255 - a) + s * a) / 255) as u8
}

/// A place on a screen of `w` by `h` pixels.
pub open spec fn on_screen(w: u32, h: u32, x: int, y: int) -> bool {
    0 <= x < w && 0 <= y < h
}

/// The index of the pixel at `(x, y)`: rows from the top, each from the left.
pub open spec fn place(w: u32, x: int, y: int) -> int {
    y * w + x
}

/// Blends `color` onto the pixel at `(x, y)`. Nothing happens off the screen, nor
/// where nothing is covered.
pub fn blend_px(buf: &mut [u32], w: u32, h: u32, x: i64, y: i64, color: Rgb, alpha: u8)
    requires
        on_screen(w, h, x as int, y as int) && alpha != 0 ==> place(w, x as int, y as int) < old(
            buf,
        )@.len(),
    ensures
        final(buf)@ == if on_screen(w, h, x as int, y as int) && alpha != 0 {
            old(buf)@.update(
                place(w, x as int, y as int),
                blended(old(buf)@[place(w, x as int, y as int)], color, alpha),
            )
        } else {
            old(buf)@
        },
{
    if x < 0 || y < 0 || x >= w as i64 || y >= h as i64 || alpha == 0 {
        return;
    }
    assert(0 <= y * w <= y * w + x) by (nonlinear_arith)
        requires
            x >= 0,
            y >= 0,
            w >= 0,
    ;
    assert(place(w, x as int, y as int) < buf.len());
    let idx: usize = (y as usize) * (w as usize) + x as usize;
    let (r, g, b) = unpack(buf[idx]);
    let px = pack(mix(r, color.0, alpha), mix(g, color.1, alpha), mix(b, color.2, alpha));
    buf[idx] = px;
}

/// Two places on the screen share an index only where they are one, and every
/// index lies among the first `w * h`.
pub proof fn place_is_unique(w: u32, h: u32, x: int, y: int)
    requires
        on_screen(w, h, x, y),
    ensures
        0 <= place(w, x, y) < w * h,
        forall|x2: int, y2: int|
            on_screen(w, h, x2, y2) && #[trigger] place(w, x2, y2) == place(w, x, y) ==> x2 == x
                && y2 == y,
{
    assert(0 <= y * w + x < w * h) by (nonlinear_arith)
        requires
            0 <= x < w,
            0 <= y < h,
    ;
    assert forall|x2: int, y2: int|
        on_screen(w, h, x2, y2) && #[trigger] place(w, x2, y2) == place(w, x, y) implies x2 == x
        && y2 == y by {
        assert(y2 == y) by (nonlinear_arith)
            requires
                0 <= x < w,
                0 <= x2 < w,
                y2 * w + x2 == y * w + x,
        ;
    }
}

/// How much of each pixel of a rectangle is covered: 0 for not at all, 255 for
/// the whole of it. Rows from the top, each from the left.
pub struct Mask {
    pub width: usize,
    pub height: usize,
    pub cover: Vec<u8>,
}

impl Mask {
    /// There is a number for every pixel of the rectangle.
    pub open spec fn wf(&self) -> bool {
        self.width * self.height <= self.cover@.len()
    }

    /// The cover at column `x` and row `y`; none outside the rectangle.
    pub open spec fn at(&self, x: int, y: int) -> u8 {
        if 0 <= x < self.width && 0 <= y < self.height {
            self.cover@[y * self.width + x]
        } else {
            0
        }
    }
}

/// A mask that lies somewhere on the screen or off it.
pub struct Stamp {
    /// Where its left column lies.
    pub left: i64,
    /// Where its top row lies.
    pub top: i64,
    pub mask: Mask,
}

impl Stamp {
    /// The mask is whole, and so near that every place of it has a number.
    pub open spec fn wf(&self) -> bool {
        &&& self.mask.wf()
        &&& self.mask.width <= i64::MAX
        &&& self.mask.height <= i64::MAX
        &&& self.left + self.mask.width - 1 <= i64::MAX
        &&& self.top + self.mask.height - 1 <= i64::MAX
    }

    /// The cover at `(x, y)`.
    pub open spec fn at(&self, x: int, y: int) -> u8 {
        self.mask.at(x - self.left, y - self.top)
    }

    /// Lays a mask at a place, where it is whole and every place of it has a number.
    pub fn new(left: i64, top: i64, mask: Mask) -> (stamp: Option<Stamp>)
        ensures
            stamp is Some <==> (Stamp { left, top, mask }).wf(),
            stamp is Some <==> {
                &&& mask.width * mask.height <= mask.cover@.len()
                &&& mask.width <= i64::MAX
                &&& mask.height <= i64::MAX
                &&& left + mask.width - 1 <= i64::MAX
                &&& top + mask.height - 1 <= i64::MAX
            },
            stamp matches Some(s) ==> s == (Stamp { left, top, mask }),
    {
        let most = i64::MAX as i128;
        let (width, height) = (mask.width as i128, mask.height as i128);
        if width > most || height > most || left as i128 + width - 1 > most || top as i128 + height
            - 1 > most {
            return None;
        }
        assert(0 <= width * height <= 0x7fff_ffff_ffff_ffff * 0x7fff_ffff_ffff_ffff)
            by (nonlinear_arith)
            requires
                0 <= width <= 0x7fff_ffff_ffff_ffff,
                0 <= height <= 0x7fff_ffff_ffff_ffff,
        ;
        if width * height > mask.cover.len() as i128 {
            return None;
        }
        Some(Stamp { left, top, mask })
    }
}

/// A pixel once `color` covers `alpha` parts of 255 of it.
pub open spec fn touched(px: u32, color: Rgb, alpha: u8) -> u32 {
    if alpha == 0 {
        px
    } else {
        blended(px, color, alpha)
    }
}

/// The cover at `(x, y)` of the mask's first `rows` rows and of the `cols` first
/// columns of the next.
spec fn cover_so_far(mask: &Mask, x: int, y: int, rows: int, cols: int) -> u8 {
    if y < rows || (y == rows && x < cols) {
        mask.at(x, y)
    } else {
        0
    }
}

/// Paints `color` through a mask. What lies off the screen is left out.
pub fn draw_mask(buf: &mut [u32], w: u32, h: u32, stamp: &Stamp, color: Rgb)
    requires
        stamp.wf(),
        w * h <= old(buf)@.len(),
    ensures
        final(buf)@.len() == old(buf)@.len(),
        forall|x: int, y: int|
            on_screen(w, h, x, y) ==> final(buf)@[#[trigger] place(w, x, y)] == touched(
                old(buf)@[place(w, x, y)],
                color,
                stamp.at(x, y),
            ),
        forall|i: int| w * h <= i < old(buf)@.len() ==> final(buf)@[i] == old(buf)@[i],
{
    let (left, top, mask) = (stamp.left, stamp.top, &stamp.mask);
    let ghost before = buf@;
    let mut by: usize = 0;
    while by < mask.height
        invariant
            mask.wf(),
            w * h <= before.len(),
            buf@.len() == before.len(),
            mask.width <= i64::MAX,
            mask.height <= i64::MAX,
            left + mask.width - 1 <= i64::MAX,
            top + mask.height - 1 <= i64::MAX,
            by <= mask.height,
            forall|x: int, y: int|
                on_screen(w, h, x, y) ==> buf@[#[trigger] place(w, x, y)] == touched(
                    before[place(w, x, y)],
                    color,
                    cover_so_far(mask, x - left, y - top, by as int, 0),
                ),
            forall|i: int| w * h <= i < before.len() ==> buf@[i] == before[i],
        decreases mask.height - by,
    {
        let mut bx: usize = 0;
        while bx < mask.width
            invariant
                mask.wf(),
                w * h <= before.len(),
                buf@.len() == before.len(),
                mask.width <= i64::MAX,
                mask.height <= i64::MAX,
                left + mask.width - 1 <= i64::MAX,
                top + mask.height - 1 <= i64::MAX,
                by < mask.height,
                bx <= mask.width,
                forall|x: int, y: int|
                    on_screen(w, h, x, y) ==> buf@[#[trigger] place(w, x, y)] == touched(
                        before[place(w, x, y)],
                        color,
                        cover_so_far(mask, x - left, y - top, by as int, bx as int),
                    ),
                forall|i: int| w * h <= i < before.len() ==> buf@[i] == before[i],
            decreases mask.width - bx,
        {
            assert(0 <= by * mask.width <= by * mask.width + bx < mask.width * mask.height)
                by (nonlinear_arith)
                requires
                    0 <= bx < mask.width,
                    0 <= by < mask.height,
            ;
            assert(mask.width * mask.height <= mask.cover.len());
            let cov = mask.cover[by * mask.width + bx];
            let ghost last = buf@;
            let px = left + bx as i64;
            let py = top + by as i64;
            proof {
                if on_screen(w, h, px as int, py as int) {
                    place_is_unique(w, h, px as int, py as int);
                }
            }
            blend_px(buf, w, h, px, py, color, cov);
            proof {
                assert forall|x: int, y: int| on_screen(w, h, x, y) implies buf@[#[trigger] place(
                    w,
                    x,
                    y,
                )] == touched(
                    before[place(w, x, y)],
                    color,
                    cover_so_far(mask, x - left, y - top, by as int, bx + 1),
                ) by {
                    place_is_unique(w, h, x, y);
                    assert(last[place(w, x, y)] == touched(
                        before[place(w, x, y)],
                        color,
                        cover_so_far(mask, x - left, y - top, by as int, bx as int),
                    ));
                    if x == px && y == py {
                        assert(mask.at(x - left, y - top) == cov);
                    }
                }
            }
            bx = bx + 1;
        }
        assert forall|x: int, y: int| on_screen(w, h, x, y) implies buf@[#[trigger] place(
            w,
            x,
            y,
        )] == touched(
            before[place(w, x, y)],
            color,
            cover_so_far(mask, x - left, y - top, by + 1, 0),
        ) by {
            assert(cover_so_far(mask, x - left, y - top, by as int, bx as int) == cover_so_far(
                mask,
                x - left,
                y - top,
                by + 1,
                0,
            ));
        }
        by = by + 1;
    }
    assert forall|x: int, y: int| on_screen(w, h, x, y) implies buf@[#[trigger] place(w, x, y)]
        == touched(before[place(w, x, y)], color, mask.at(x - left, y - top)) by {
        assert(cover_so_far(mask, x - left, y - top, by as int, 0) == mask.at(x - left, y - top));
    }
}

/// One channel of the backdrop in row `y` of `h`: `head` in the first row, less a
/// share of `drop` in proportion to the rows above, rounded down.
pub open spec fn shade(head: int, drop: int, y: int, h: int) -> int {
    (head * h - drop * y) / h
}

/// The backdrop's pixel in row `y` of `h`.
pub open spec fn backdrop(y: int, h: int) -> u32 {
    packed(shade(26, 12, y, h) as u8, shade(27, 13, y, h) as u8, shade(38, 16, y, h) as u8)
}

/// Computes one channel of the backdrop.
fn shade_channel(head: u32, drop: u32, y: u32, h: u32) -> (channel: u8)
    requires
        drop <= head <= 255,
        y < h,
    ensures
        channel == shade(head as int, drop as int, y as int, h as int),
        0 <= shade(head as int, drop as int, y as int, h as int) <= 255,
{
    let (a, d, k, n) = (head as u64, drop as u64, y as u64, h as u64);
    assert(d * k <= a * n <= 255 * n && 0 <= d * k) by (nonlinear_arith)
        requires
            0 <= d <= a <= 255,
            0 <= k < n,
    ;
    let left: u64 = a * n - d * k;
    assert(left / n <= 255) by (nonlinear_arith)
        requires
            0 <= left <= 255 * n,
            0 < n,
    ;
    (left / n) as u8
}

/// Paints the backdrop of the built-in screen: a dark gradient from top to bottom.
pub fn fill_backdrop(buf: &mut [u32], w: u32, h: u32)
    requires
        w * h <= old(buf)@.len(),
    ensures
        final(buf)@.len() == old(buf)@.len(),
        forall|x: int, y: int|
            on_screen(w, h, x, y) ==> final(buf)@[#[trigger] place(w, x, y)] == backdrop(
                y,
                h as int,
            ),
        forall|i: int| w * h <= i < old(buf)@.len() ==> final(buf)@[i] == old(buf)@[i],
{
    let ghost before = buf@;
    let mut y: u32 = 0;
    while y < h
        invariant
            w * h <= before.len(),
            buf@.len() == before.len(),
            y <= h,
            forall|x: int, j: int|
                on_screen(w, h, x, j) && j < y ==> buf@[#[trigger] place(w, x, j)] == backdrop(
                    j,
                    h as int,
                ),
            forall|i: int| w * h <= i < before.len() ==> buf@[i] == before[i],
        decreases h - y,
    {
        let px = pack(
            shade_channel(26, 12, y, h),
            shade_channel(27, 13, y, h),
            shade_channel(38, 16, y, h),
        );
        let mut x: u32 = 0;
        while x < w
            invariant
                w * h <= before.len(),
                buf@.len() == before.len(),
                y < h,
                x <= w,
                px == backdrop(y as int, h as int),
                forall|i: int, j: int|
                    on_screen(w, h, i, j) && (j < y || j == y && i < x)
                        ==> buf@[#[trigger] place(w, i, j)] == backdrop(j, h as int),
                forall|i: int| w * h <= i < before.len() ==> buf@[i] == before[i],
            decreases w - x,
        {
            proof {
                place_is_unique(w, h, x as int, y as int);
            }
            assert(0 <= y * w) by (nonlinear_arith);
            assert(place(w, x as int, y as int) < buf.len());
            let idx: usize = (y as usize) * (w as usize) + x as usize;
            let ghost last = buf@;
            buf[idx] = px;
            assert forall|i: int, j: int|
                on_screen(w, h, i, j) && (j < y || j == y && i < x + 1) implies buf@[#[trigger] place(
                w,
                i,
                j,
            )] == backdrop(j, h as int) by {
                place_is_unique(w, h, i, j);
                if i != x || j != y {
                    assert(last[place(w, i, j)] == backdrop(j, h as int));
                }
            }
            x = x + 1;
        }
        y = y + 1;
    }
}

/// Taking a packed pixel apart gives its channels back, and its top byte is zero.
pub proof fn packing_keeps_the_channels(r: u8, g: u8, b: u8)
    ensures
        red(packed(r, g, b)) == r,
        green(packed(r, g, b)) == g,
        blue(packed(r, g, b)) == b,
        packed(r, g, b) < 0x100_0000,
{
    let px = r * 0x1_0000 + g * 0x100 + b;
    assert(px / 0x1_0000 == r);
    assert(px / 0x100 == r * 0x100 + g);
}

/// A mixed channel lies between the two that were mixed; it is the lower one where
/// nothing is covered and the upper one where all is.
pub proof fn mixing_stays_between(under: u8, over: u8, alpha: u8)
    ensures
        under <= over ==> under <= mixed(under, over, alpha) <= over,
        over <= under ==> over <= mixed(under, over, alpha) <= under,
        mixed(under, over, 0) == under,
        mixed(under, over, 255) == over,
{
    let (d, s, a) = (under as int, over as int, alpha as int);
    let sum = d * (255 - a) + s * a;
    assert(d * (255 - 0) + s * 0 == 255 * d && d * (255 - 255) + s * 255 == 255 * s)
        by (nonlinear_arith);
    assert(d <= s ==> 255 * d <= sum <= 255 * s) by (nonlinear_arith)
        requires
            sum == d * (255 - a) + s * a,
            0 <= a <= 255,
    ;
    assert(s <= d ==> 255 * s <= sum <= 255 * d) by (nonlinear_arith)
        requires
            sum == d * (255 - a) + s * a,
            0 <= a <= 255,
    ;
}

/// Where all of a pixel is covered, its colour is the one laid on it.
pub proof fn full_cover_hides_what_is_under(px: u32, color: Rgb)
    ensures
        blended(px, color, 255) == packed(color.0, color.1, color.2),
{
    mixing_stays_between(red(px), color.0, 255);
    mixing_stays_between(green(px), color.1, 255);
    mixing_stays_between(blue(px), color.2, 255);
}

/// The backdrop starts with its brightest row and never gets brighter downwards.
pub proof fn backdrop_darkens(head: int, drop: int, y: int, lower: int, h: int)
    requires
        0 <= drop <= head,
        0 <= y <= lower < h,
    ensures
        shade(head, drop, 0, h) == head,
        head - drop <= shade(head, drop, lower, h) <= shade(head, drop, y, h) <= head,
{
    assert(shade(head, drop, 0, h) == head) by (nonlinear_arith)
        requires
            h > 0,
            shade(head, drop, 0, h) == (head * h - drop * 0) / h,
    ;
    let (a, b) = (head * h - drop * y, head * h - drop * lower);
    assert((head - drop) * h <= b <= a <= head * h) by (nonlinear_arith)
        requires
            0 <= drop <= head,
            0 <= y <= lower < h,
            a == head * h - drop * y,
            b == head * h - drop * lower,
    ;
    assert(head - drop <= b / h && b / h <= a / h && a / h <= head) by (nonlinear_arith)
        requires
            h > 0,
            (head - drop) * h <= b <= a <= head * h,
    ;
}

/// The channels of a pixel are its three low bytes, red above green above blue.
pub proof fn channels_are_the_low_bytes(px: u32)
    ensures
        red(px) * 0x1_0000 + green(px) * 0x100 + blue(px) == px % 0x100_0000,
{
    assert(px / 0x1_0000 % 0x100 * 0x1_0000 + px / 0x100 % 0x100 * 0x100 + px % 0x100 == px
        % 0x100_0000) by (bit_vector);
}

/// Blending mixes each of the three low bytes of a pixel with the same channel of the
/// colour, `alpha` parts of 255 of the colour's and the rest of the pixel's, rounded
/// down; the top byte is zero then.
pub proof fn blending_mixes_each_channel(px: u32, color: Rgb, alpha: u8)
    ensures
        ({
            let (r, g, b) = (px / 0x1_0000 % 0x100, px / 0x100 % 0x100, px % 0x100);
            let out = blended(px, color, alpha);
            &&& out / 0x100_0000 == 0
            &&& out / 0x1_0000 % 0x100 == (r * (255 - alpha) + color.0 * alpha) / 255
            &&& out / 0x100 % 0x100 == (g * (255 - alpha) + color.1 * alpha) / 255
            &&& out % 0x100 == (b * (255 - alpha) + color.2 * alpha) / 255
        }),
{
    mix_is_a_byte(red(px), color.0, alpha);
    mix_is_a_byte(green(px), color.1, alpha);
    mix_is_a_byte(blue(px), color.2, alpha);
    packing_keeps_the_channels(
        mixed(red(px), color.0, alpha),
        mixed(green(px), color.1, alpha),
        mixed(blue(px), color.2, alpha),
    );
}

proof fn mix_is_a_byte(under: u8, over: u8, alpha: u8)
    ensures
        mixed(under, over, alpha) == (under * (255 - alpha) + over * alpha) / 255,
{
    let (d, s, a) = (under as int, over as int, alpha as int);
    assert(0 <= d * (255 - a) + s * a <= 255 * 255) by (nonlinear_arith)
        requires
            0 <= d <= 255,
            0 <= s <= 255,
            0 <= a <= 255,
    ;
}

/// A colour that covers nothing of a pixel leaves it as it is, its top byte included;
/// one that covers any of it is blended.
pub proof fn covering_nothing_changes_nothing(px: u32, color: Rgb, alpha: u8)
    ensures
        touched(px, color, 0) == px,
        alpha > 0 ==> touched(px, color, alpha) == blended(px, color, alpha),
{
}

/// The screen has `w` columns and `h` rows, and its pixels lie row by row.
pub proof fn pixels_lie_row_by_row(w: u32, h: u32, x: int, y: int)
    ensures
        on_screen(w, h, x, y) <==> x >= 0 && y >= 0 && x < w && y < h,
        place(w, 0, 0) == 0,
        place(w, x + 1, y) == place(w, x, y) + 1,
        place(w, x, y + 1) == place(w, x, y) + w,
{
    assert((y + 1) * w == y * w + w && 0 * w == 0) by (nonlinear_arith);
}

/// A mask that lies somewhere covers there what it covers, column by column and row by
/// row from its left and top, and nothing beside it.
pub proof fn masks_cover_where_they_lie(stamp: &Stamp, column: int, row: int)
    ensures
        0 <= column < stamp.mask.width && 0 <= row < stamp.mask.height ==> stamp.at(
            stamp.left + column,
            stamp.top + row,
        ) == stamp.mask.cover@[row * stamp.mask.width + column],
        column < 0 || row < 0 || column >= stamp.mask.width || row >= stamp.mask.height ==> stamp.at(
            stamp.left + column,
            stamp.top + row,
        ) == 0,
{
}

/// A mask can be painted where it has a number for every pixel of its rectangle and none
/// of them lies beyond the places that have numbers.
pub proof fn near_and_whole_masks_can_be_painted(stamp: &Stamp)
    ensures
        stamp.wf() <==> {
            &&& stamp.mask.width * stamp.mask.height <= stamp.mask.cover@.len()
            &&& stamp.mask.width <= i64::MAX
            &&& stamp.mask.height <= i64::MAX
            &&& stamp.left + stamp.mask.width - 1 <= i64::MAX
            &&& stamp.top + stamp.mask.height - 1 <= i64::MAX
        },
{
}

/// In row `y` of `h` the backdrop's red is 26 less `12 * y / h`, its green 27 less
/// `13 * y / h` and its blue 38 less `16 * y / h`, each rounded down.
pub proof fn backdrop_is_a_gradient(y: int, h: int)
    requires
        0 <= y < h,
    ensures
        ({
            let px = backdrop(y, h);
            let (r, g, b) = (px / 0x1_0000, px / 0x100 % 0x100, px % 0x100);
            &&& r * h <= 26 * h - 12 * y < (r + 1) * h
            &&& g * h <= 27 * h - 13 * y < (g + 1) * h
            &&& b * h <= 38 * h - 16 * y < (b + 1) * h
        }),
{
    shade_is_rounded_down(26, 12, y, h);
    shade_is_rounded_down(27, 13, y, h);
    shade_is_rounded_down(38, 16, y, h);
    let (r, g, b) = (shade(26, 12, y, h), shade(27, 13, y, h), shade(38, 16, y, h));
    packing_keeps_the_channels(r as u8, g as u8, b as u8);
}

proof fn shade_is_rounded_down(head: int, drop: int, y: int, h: int)
    requires
        0 <= drop <= head <= 255,
        0 <= y < h,
    ensures
        0 <= shade(head, drop, y, h) <= 255,
        shade(head, drop, y, h) * h <= head * h - drop * y < (shade(head, drop, y, h) + 1) * h,
{
    backdrop_darkens(head, drop, y, y, h);
    let (n, q) = (head * h - drop * y, shade(head, drop, y, h));
    assert(q * h <= n < (q + 1) * h) by (nonlinear_arith)
        requires
            q == n / h,
            h > 0,
    ;
}

} // verus!
