//! The built-in screen: a backdrop, a padlock, the time and the date. Where each of
//! them lies is settled elsewhere; what becomes of the pixels is settled here.
use vstd::prelude::*;

use crate::paint::{
    backdrop, draw_mask, fill_backdrop, on_screen, place, touched, Mask, Rgb, Stamp, BRIGHT, FAINT,
};

verus! {

/// Which parts of the padlock a point lies in.
#[derive(Clone, Copy)]
pub struct Sample {
    /// The outline of the body.
    pub body: bool,
    /// The shackle above it.
    pub shackle: bool,
    /// The keyhole cut out of it.
    pub keyhole: bool,
}

impl Sample {
    /// The point is painted: it lies in the body and not in the keyhole, or in the
    /// shackle.
    pub open spec fn is_inside(self) -> bool {
        (self.body && !self.keyhole) || self.shackle
    }

    /// Tells whether the point is painted.
    pub fn inside(self) -> (yes: bool)
        ensures
            yes == self.is_inside(),
            yes <==> self.shackle || (self.body && !self.keyhole),
    {
        (self.body && !self.keyhole) || self.shackle
    }
}

/// How many of the first `n` points are painted.
pub open spec fn hits(samples: Seq<Sample>, n: int) -> int
    decreases n,
{
    if n <= 0 {
        0
    } else {
        hits(samples, n - 1) + if samples[n - 1].is_inside() {
            1int
        } else {
            0int
        }
    }
}

/// How much of a pixel the padlock covers, by four points of it.
pub fn padlock_cover(samples: &[Sample; 4]) -> (cover: u8)
    ensures
        cover == cover_of(*samples),
        cover == hits(samples@, 4) * 255 / 4,
{
    let mut count: u32 = 0;
    let mut i: usize = 0;
    while i < 4
        invariant
            i <= 4,
            count <= i,
            count == hits(samples@, i as int),
        decreases 4 - i,
    {
        if samples[i].inside() {
            count = count + 1;
        }
        i = i + 1;
    }
    (count * 255 / 4) as u8
}

/// The cover of a pixel of which these are the points.
pub open spec fn cover_of(samples: [Sample; 4]) -> u8 {
    (hits(samples@, 4) * 255 / 4) as u8
}

/// The padlock as a mask, of four points of each pixel of the rectangle around it:
/// rows from the top, each from the left. There is one where the pixels are as many as
/// the rectangle has, and it lies where every place has a number.
pub fn lock_icon(
    left: i64,
    top: i64,
    width: usize,
    height: usize,
    samples: &Vec<[Sample; 4]>,
) -> (icon: Option<Stamp>)
    ensures
        icon is Some <==> {
            &&& width <= i64::MAX
            &&& height <= i64::MAX
            &&& left + width - 1 <= i64::MAX
            &&& top + height - 1 <= i64::MAX
            &&& width * height <= samples@.len()
        },
        icon matches Some(stamp) ==> {
            &&& stamp.wf()
            &&& stamp.left == left && stamp.top == top
            &&& stamp.mask.width == width && stamp.mask.height == height
            &&& stamp.mask.cover@ == samples@.map_values(|points: [Sample; 4]| cover_of(points))
        },
{
    let mut cover: Vec<u8> = Vec::new();
    let mut i: usize = 0;
    while i < samples.len()
        invariant
            i <= samples@.len(),
            cover@ == samples@.map_values(|points: [Sample; 4]| cover_of(points)).take(i as int),
        decreases samples@.len() - i,
    {
        cover.push(padlock_cover(&samples[i]));
        i = i + 1;
    }
    assert(cover@ =~= samples@.map_values(|points: [Sample; 4]| cover_of(points)));
    Stamp::new(left, top, Mask { width, height, cover })
}

/// The pixel at `(x, y)` once `color` was painted through the first `n` masks, one
/// after the other.
pub open spec fn stamped(px: u32, color: Rgb, stamps: Seq<Stamp>, n: int, x: int, y: int) -> u32
    decreases n,
{
    if n <= 0 {
        px
    } else {
        touched(stamped(px, color, stamps, n - 1, x, y), color, stamps[n - 1].at(x, y))
    }
}

/// Every mask can be painted.
pub open spec fn all_wf(stamps: Seq<Stamp>) -> bool {
    forall|i: int| 0 <= i < stamps.len() ==> (#[trigger] stamps[i]).wf()
}

/// Paints the glyphs of a text, one after the other.
pub fn draw_text(buf: &mut [u32], w: u32, h: u32, glyphs: &Vec<Stamp>, color: Rgb)
    requires
        all_wf(glyphs@),
        w * h <= old(buf)@.len(),
    ensures
        final(buf)@.len() == old(buf)@.len(),
        forall|x: int, y: int|
            on_screen(w, h, x, y) ==> final(buf)@[#[trigger] place(w, x, y)] == stamped(
                old(buf)@[place(w, x, y)],
                color,
                glyphs@,
                glyphs@.len() as int,
                x,
                y,
            ),
        forall|i: int| w * h <= i < old(buf)@.len() ==> final(buf)@[i] == old(buf)@[i],
{
    let ghost before = buf@;
    let mut i: usize = 0;
    while i < glyphs.len()
        invariant
            all_wf(glyphs@),
            i <= glyphs@.len(),
            w * h <= before.len(),
            buf@.len() == before.len(),
            forall|x: int, y: int|
                on_screen(w, h, x, y) ==> buf@[#[trigger] place(w, x, y)] == stamped(
                    before[place(w, x, y)],
                    color,
                    glyphs@,
                    i as int,
                    x,
                    y,
                ),
            forall|k: int| w * h <= k < before.len() ==> buf@[k] == before[k],
        decreases glyphs@.len() - i,
    {
        draw_mask(buf, w, h, &glyphs[i], color);
        i = i + 1;
    }
}

/// What stands on the backdrop.
pub struct Overlay {
    pub padlock: Stamp,
    /// The glyphs of the time; none without a font.
    pub time: Vec<Stamp>,
    /// The glyphs of the date; none without a font.
    pub date: Vec<Stamp>,
}

impl Overlay {
    /// Everything on it can be painted.
    pub open spec fn wf(&self) -> bool {
        self.padlock.wf() && all_wf(self.time@) && all_wf(self.date@)
    }

    /// Nothing on the backdrop.
    pub fn empty() -> (overlay: Overlay)
        ensures
            overlay.wf(),
            forall|x: int, y: int| overlay.padlock.at(x, y) == 0,
            overlay.time@.len() == 0,
            overlay.date@.len() == 0,
    {
        let mask = Mask { width: 0, height: 0, cover: Vec::new() };
        Overlay {
            padlock: Stamp { left: 0, top: 0, mask },
            time: Vec::new(),
            date: Vec::new(),
        }
    }

    /// The pixel at `(x, y)` of the built-in screen.
    pub open spec fn pixel(&self, h: u32, x: int, y: int) -> u32 {
        let ground = backdrop(y, h as int);
        let locked = touched(ground, BRIGHT, self.padlock.at(x, y));
        let timed = stamped(locked, BRIGHT, self.time@, self.time@.len() as int, x, y);
        stamped(timed, FAINT, self.date@, self.date@.len() as int, x, y)
    }
}

/// Paints the built-in screen.
pub fn render_default(buf: &mut [u32], w: u32, h: u32, overlay: &Overlay)
    requires
        overlay.wf(),
        w * h <= old(buf)@.len(),
    ensures
        final(buf)@.len() == old(buf)@.len(),
        forall|x: int, y: int|
            on_screen(w, h, x, y) ==> final(buf)@[#[trigger] place(w, x, y)] == overlay.pixel(
                h,
                x,
                y,
            ),
        forall|i: int| w * h <= i < old(buf)@.len() ==> final(buf)@[i] == old(buf)@[i],
{
    fill_backdrop(buf, w, h);
    draw_mask(buf, w, h, &overlay.padlock, BRIGHT);
    draw_text(buf, w, h, &overlay.time, BRIGHT);
    draw_text(buf, w, h, &overlay.date, FAINT);
}

/// A pixel of which every point is painted is covered in full, one of which none is
/// not at all.
pub proof fn padlock_cover_spans_all(samples: Seq<Sample>)
    requires
        samples.len() == 4,
    ensures
        0 <= hits(samples, 4) <= 4,
        hits(samples, 4) * 255 / 4 == 255 <==> forall|i: int| 0 <= i < 4 ==> samples[i].is_inside(),
        hits(samples, 4) * 255 / 4 == 0 <==> forall|i: int| 0 <= i < 4 ==> !samples[i].is_inside(),
{
    reveal_with_fuel(hits, 5);
}

/// Where neither the padlock nor a glyph covers anything, the backdrop shows.
pub proof fn uncovered_pixels_show_the_backdrop(overlay: &Overlay, h: u32, x: int, y: int)
    requires
        overlay.padlock.at(x, y) == 0,
        forall|i: int| 0 <= i < overlay.time@.len() ==> (#[trigger] overlay.time@[i]).at(x, y) == 0,
        forall|i: int| 0 <= i < overlay.date@.len() ==> (#[trigger] overlay.date@[i]).at(x, y) == 0,
    ensures
        overlay.pixel(h, x, y) == backdrop(y, h as int),
{
    let ground = backdrop(y, h as int);
    stamps_without_cover(ground, BRIGHT, overlay.time@, overlay.time@.len() as int, x, y);
    stamps_without_cover(ground, FAINT, overlay.date@, overlay.date@.len() as int, x, y);
}

proof fn stamps_without_cover(
    px: u32,
    color: Rgb,
    stamps: Seq<Stamp>,
    n: int,
    x: int,
    y: int,
)
    requires
        n <= stamps.len(),
        forall|i: int| 0 <= i < n ==> (#[trigger] stamps[i]).at(x, y) == 0,
    ensures
        stamped(px, color, stamps, n, x, y) == px,
    decreases n,
{
    if n > 0 {
        stamps_without_cover(px, color, stamps, n - 1, x, y);
        assert(stamps[n - 1].at(x, y) == 0);
    }
}

/// A point of the padlock is painted where it lies in the shackle, or in the body and
/// not in the keyhole; of a pixel so many parts of 255 are covered as of its four points
/// are painted, rounded down.
pub proof fn cover_counts_the_points(samples: [Sample; 4])
    ensures
        ({
            let n = (if samples@[0].shackle || (samples@[0].body && !samples@[0].keyhole) {
                1int
            } else {
                0
            }) + (if samples@[1].shackle || (samples@[1].body && !samples@[1].keyhole) {
                1int
            } else {
                0
            }) + (if samples@[2].shackle || (samples@[2].body && !samples@[2].keyhole) {
                1int
            } else {
                0
            }) + (if samples@[3].shackle || (samples@[3].body && !samples@[3].keyhole) {
                1int
            } else {
                0
            });
            &&& n == 0 ==> cover_of(samples) == 0
            &&& n == 1 ==> cover_of(samples) == 63
            &&& n == 2 ==> cover_of(samples) == 127
            &&& n == 3 ==> cover_of(samples) == 191
            &&& n == 4 ==> cover_of(samples) == 255
            &&& hits(samples@, 4) == n
        }),
{
    reveal_with_fuel(hits, 5);
}

/// Glyphs are painted one after the other, each on what those before it left.
pub proof fn glyphs_are_painted_in_turn(
    px: u32,
    color: Rgb,
    stamps: Seq<Stamp>,
    last: Stamp,
    x: int,
    y: int,
)
    ensures
        stamped(px, color, stamps, 0, x, y) == px,
        stamped(px, color, stamps.push(last), stamps.len() as int + 1, x, y) == touched(
            stamped(px, color, stamps, stamps.len() as int, x, y),
            color,
            last.at(x, y),
        ),
{
    glyphs_behind_do_not_matter(px, color, stamps, stamps.push(last), stamps.len() as int, x, y);
}

proof fn glyphs_behind_do_not_matter(
    px: u32,
    color: Rgb,
    stamps: Seq<Stamp>,
    more: Seq<Stamp>,
    n: int,
    x: int,
    y: int,
)
    requires
        0 <= n <= stamps.len(),
        n <= more.len(),
        forall|i: int| 0 <= i < n ==> stamps[i] == more[i],
    ensures
        stamped(px, color, stamps, n, x, y) == stamped(px, color, more, n, x, y),
    decreases n,
{
    if n > 0 {
        glyphs_behind_do_not_matter(px, color, stamps, more, n - 1, x, y);
    }
}

/// The built-in screen is painted in layers: on the backdrop the padlock, in the colour
/// of red 205, green 211 and blue 235; on that the time in the same colour; and on that
/// the date, in the colour of red 150, green 156 and blue 180.
pub proof fn screen_is_painted_in_layers(overlay: &Overlay, h: u32, x: int, y: int)
    ensures
        ({
            let bright = (205u8, 211u8, 235u8);
            let faint = (150u8, 156u8, 180u8);
            let under = touched(backdrop(y, h as int), bright, overlay.padlock.at(x, y));
            let clock = stamped(under, bright, overlay.time@, overlay.time@.len() as int, x, y);
            overlay.pixel(h, x, y) == stamped(
                clock,
                faint,
                overlay.date@,
                overlay.date@.len() as int,
                x,
                y,
            )
        }),
{
}

/// What stands on the backdrop can be painted where each mask of it can be.
pub proof fn overlays_can_be_painted_mask_by_mask(overlay: &Overlay)
    ensures
        overlay.wf() <==> {
            &&& overlay.padlock.wf()
            &&& forall|i: int| 0 <= i < overlay.time@.len() ==> (#[trigger] overlay.time@[i]).wf()
            &&& forall|i: int| 0 <= i < overlay.date@.len() ==> (#[trigger] overlay.date@[i]).wf()
        },
{
}

} // verus!
