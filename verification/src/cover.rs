//! The background image: scaled until it covers the screen, then cropped to it.
use vstd::prelude::*;

use crate::paint::{on_screen, pack, packed, place};
use crate::scale::{
    cover_sides, cover_size, nothing_stays_nothing, scaled_side, sides_are_rounded_up,
};

verus! {

/// A picture of red, green and blue bytes: rows from the top, each from the left.
pub struct Picture {
    pub width: u32,
    pub height: u32,
    pub data: Vec<u8>,
}

impl Picture {
    /// There are three bytes for every pixel.
    pub open spec fn wf(&self) -> bool {
        self.data@.len() == 3 * self.width * self.height
    }

    /// Makes a picture of its bytes, where they are as many as its size asks for.
    pub fn from_raw(width: u32, height: u32, data: Vec<u8>) -> (picture: Option<Picture>)
        ensures
            picture is Some <==> data@.len() == 3 * width * height,
            picture matches Some(p) ==> p.wf() && p.width == width && p.height == height && p.data
                == data,
    {
        assert(0 <= 3 * width * height < 0x4_0000_0000_0000_0000) by (nonlinear_arith)
            requires
                0 <= width < 0x1_0000_0000,
                0 <= height < 0x1_0000_0000,
        ;
        if data.len() as u128 == 3 * width as u128 * height as u128 {
            Some(Picture { width, height, data })
        } else {
            None
        }
    }
}

/// What `image::imageops::resize` with the triangle filter makes of the bytes of a
/// picture of `width` by `height` pixels: those of one of `new_width` by
/// `new_height`.
pub uninterp spec fn resized(
    data: Seq<u8>,
    width: u32,
    height: u32,
    new_width: u32,
    new_height: u32,
) -> Seq<u8>;

/// The longest side for which single precision is known to keep the weights of
/// the triangle filter positive.
pub const MAX_SIDE: u32 = 0x20_0000;

/// A picture of this size can be resized to that: no side is longer than
/// `MAX_SIDE`, and a vector can hold what comes out, and what lies between the two
/// passes, four numbers of four bytes for each pixel of a picture as wide as the
/// old and as high as the new.
pub open spec fn can_resize(width: u32, height: u32, new_width: u32, new_height: u32) -> bool {
    &&& width <= MAX_SIDE
    &&& height <= MAX_SIDE
    &&& new_width <= MAX_SIDE
    &&& new_height <= MAX_SIDE
    &&& 3 * new_width * new_height <= isize::MAX
    &&& 16 * width * new_height <= isize::MAX
}

/// `image::imageops::resize` of the crate `image`, with `FilterType::Triangle`, on
/// an RGB buffer. Trusted: it returns three bytes for each pixel of the new size;
/// these depend on the picture and the two sizes alone; a picture that has the new
/// size already is copied; one without pixels comes out black.
#[verifier::external_body]
fn resize(data: &Vec<u8>, width: u32, height: u32, new_width: u32, new_height: u32) -> (out: Vec<
    u8,
>)
    requires
        data@.len() == 3 * width * height,
        can_resize(width, height, new_width, new_height),
    ensures
        out@ == resized(data@, width, height, new_width, new_height),
        out@.len() == 3 * new_width * new_height,
        width == new_width && height == new_height ==> out@ == data@,
        width == 0 || height == 0 ==> forall|i: int| 0 <= i < out@.len() ==> out@[i] == 0,
{
    let picture: image::RgbImage = image::ImageBuffer::from_raw(width, height, data.clone()).unwrap();
    image::imageops::resize(&picture, new_width, new_height, image::imageops::FilterType::Triangle)
        .into_raw()
}

/// The larger of the two: a scaled side is never shorter than the screen's.
pub open spec fn at_least(side: u32, screen: u32) -> u32 {
    if side < screen {
        screen
    } else {
        side
    }
}

/// The size at which a picture covers a screen, neither side shorter than the
/// screen's.
pub open spec fn full_size(picture: &Picture, w: u32, h: u32) -> (u32, u32) {
    let (side_w, side_h) = cover_size(picture.width, picture.height, w, h);
    (at_least(side_w, w), at_least(side_h, h))
}

/// The bytes of a picture scaled to cover a screen.
pub open spec fn scaled(picture: &Picture, w: u32, h: u32) -> Seq<u8> {
    let (nw, nh) = full_size(picture, w, h);
    resized(picture.data@, picture.width, picture.height, nw, nh)
}

/// The pixel at `(x, y)` of a picture of three bytes a pixel.
pub open spec fn pixel_of(data: Seq<u8>, width: u32, x: int, y: int) -> u32 {
    let i = 3 * (y * width + x);
    packed(data[i], data[i + 1], data[i + 2])
}

/// The pixel at `(x, y)` of the `w` by `h` pixels in the middle of a picture of `nw`
/// by `nh`: as much is cut off on the one side as on the other, or one pixel more
/// on the right and at the bottom.
pub open spec fn crop_pixel(
    data: Seq<u8>,
    nw: u32,
    nh: u32,
    w: u32,
    h: u32,
    x: int,
    y: int,
) -> u32 {
    pixel_of(data, nw, (nw - w) / 2 + x, (nh - h) / 2 + y)
}

/// `pixels` are the `w` by `h` in the middle of a picture of `nw` by `nh`.
pub open spec fn is_crop(pixels: Seq<u32>, data: Seq<u8>, nw: u32, nh: u32, w: u32, h: u32) -> bool {
    &&& pixels.len() == w * h
    &&& forall|x: int, y: int|
        on_screen(w, h, x, y) ==> pixels[#[trigger] place(w, x, y)] == crop_pixel(
            data,
            nw,
            nh,
            w,
            h,
            x,
            y,
        )
}

/// `pixels` are those of a screen of `w` by `h` that the picture covers.
pub open spec fn is_cover(pixels: Seq<u32>, picture: &Picture, w: u32, h: u32) -> bool {
    let (nw, nh) = full_size(picture, w, h);
    is_crop(pixels, scaled(picture, w, h), nw, nh, w, h)
}

/// The picture can be scaled to cover the screen, and a vector can hold the
/// screen's pixels.
pub open spec fn can_cover(picture: &Picture, w: u32, h: u32) -> bool {
    let (nw, nh) = full_size(picture, w, h);
    &&& can_resize(picture.width, picture.height, nw, nh)
    &&& 4 * w * h <= isize::MAX
}

/// Computes `at_least`.
fn raise(side: u32, screen: u32) -> (out: u32)
    ensures
        out == at_least(side, screen),
{
    if side < screen {
        screen
    } else {
        side
    }
}

/// Computes `full_size`.
fn size_to_cover(picture: &Picture, w: u32, h: u32) -> (size: (u32, u32))
    ensures
        size == full_size(picture, w, h),
{
    let (side_w, side_h) = cover_sides(picture.width, picture.height, w, h);
    (raise(side_w, w), raise(side_h, h))
}

/// Tells whether a picture can be scaled to cover a screen.
pub fn fits(picture: &Picture, w: u32, h: u32) -> (yes: bool)
    ensures
        yes == can_cover(picture, w, h),
{
    let (nw, nh) = size_to_cover(picture, w, h);
    if picture.width > MAX_SIDE || picture.height > MAX_SIDE || nw > MAX_SIDE || nh > MAX_SIDE {
        return false;
    }
    let most = isize::MAX as u64;
    let (iw, ow, oh, sw, sh) = (picture.width as u64, nw as u64, nh as u64, w as u64, h as u64);
    assert(ow * oh <= 0x400_0000_0000 && iw * oh <= 0x400_0000_0000 && sw * sh <= 0x400_0000_0000)
        by (nonlinear_arith)
        requires
            iw <= 0x20_0000,
            ow <= 0x20_0000,
            oh <= 0x20_0000,
            sw <= ow,
            sh <= oh,
    ;
    assert(3 * nw * nh == 3 * (ow * oh) && 16 * picture.width * nh == 16 * (iw * oh) && 4 * w * h
        == 4 * (sw * sh)) by (nonlinear_arith)
        requires
            ow == nw,
            oh == nh,
            iw == picture.width,
            sw == w,
            sh == h,
    ;
    3 * (ow * oh) <= most && 16 * (iw * oh) <= most && 4 * (sw * sh) <= most
}

/// Packs the `w` by `h` pixels in the middle of a picture of `nw` by `nh`.
pub fn crop_center(data: &Vec<u8>, nw: u32, nh: u32, w: u32, h: u32) -> (pixels: Vec<u32>)
    requires
        data@.len() == 3 * nw * nh,
        w <= nw,
        h <= nh,
        4 * w * h <= isize::MAX,
    ensures
        is_crop(pixels@, data@, nw, nh, w, h),
{
    let (x0, y0) = ((nw - w) / 2, (nh - h) / 2);
    assert(0 <= w * h <= isize::MAX) by (nonlinear_arith)
        requires
            4 * w * h <= isize::MAX,
            0 <= w,
            0 <= h,
    ;
    let mut pixels: Vec<u32> = Vec::with_capacity((w as usize) * (h as usize));
    let mut y: u32 = 0;
    assert(0 * w == 0) by (nonlinear_arith);
    while y < h
        invariant
            data@.len() == 3 * nw * nh,
            w <= nw,
            h <= nh,
            x0 == (nw - w) / 2,
            y0 == (nh - h) / 2,
            y <= h,
            pixels@.len() == y * w,
            forall|i: int, j: int|
                on_screen(w, h, i, j) && j < y ==> pixels@[#[trigger] place(w, i, j)] == crop_pixel(
                    data@,
                    nw,
                    nh,
                    w,
                    h,
                    i,
                    j,
                ),
        decreases h - y,
    {
        let mut x: u32 = 0;
        while x < w
            invariant
                data@.len() == 3 * nw * nh,
                w <= nw,
                h <= nh,
                x0 == (nw - w) / 2,
                y0 == (nh - h) / 2,
                y < h,
                x <= w,
                pixels@.len() == y * w + x,
                forall|i: int, j: int|
                    on_screen(w, h, i, j) && (j < y || j == y && i < x)
                        ==> pixels@[#[trigger] place(w, i, j)] == crop_pixel(
                        data@,
                        nw,
                        nh,
                        w,
                        h,
                        i,
                        j,
                    ),
            decreases w - x,
        {
            let (sx, sy) = (x0 + x, y0 + y);
            assert(0 <= sy * nw && 0 <= 3 * (sy * nw + sx) && 3 * (sy * nw + sx) + 2 < 3 * nw * nh)
                by (nonlinear_arith)
                requires
                    0 <= sx < nw,
                    0 <= sy < nh,
            ;
            assert(data@.len() == data.len());
            let k: usize = 3 * ((sy as usize) * (nw as usize) + sx as usize);
            let px = pack(data[k], data[k + 1], data[k + 2]);
            let ghost last = pixels@;
            pixels.push(px);
            assert forall|i: int, j: int|
                on_screen(w, h, i, j) && (j < y || j == y && i < x + 1) implies pixels@[#[trigger] place(
                w,
                i,
                j,
            )] == crop_pixel(data@, nw, nh, w, h, i, j) by {
                if j == y && i == x {
                    assert(place(w, i, j) == last.len());
                } else {
                    assert(0 <= j * w + i < y * w + x) by (nonlinear_arith)
                        requires
                            0 <= i < w,
                            0 <= x,
                            0 <= j < y || (0 <= j && j == y && i < x),
                    ;
                    assert(last[place(w, i, j)] == crop_pixel(data@, nw, nh, w, h, i, j));
                }
            }
            x = x + 1;
        }
        assert((y + 1) * w == y * w + w) by (nonlinear_arith);
        y = y + 1;
    }
    assert(h * w == w * h) by (nonlinear_arith);
    pixels
}

/// Scales the picture to cover a screen, its aspect kept, crops it to the middle and
/// packs its pixels.
pub fn scale_cover(picture: &Picture, w: u32, h: u32) -> (pixels: Vec<u32>)
    requires
        picture.wf(),
        can_cover(picture, w, h),
    ensures
        is_cover(pixels@, picture, w, h),
        (picture.width, picture.height) == full_size(picture, w, h) ==> is_crop(
            pixels@,
            picture.data@,
            picture.width,
            picture.height,
            w,
            h,
        ),
        picture.width == 0 || picture.height == 0 ==> forall|x: int, y: int|
            on_screen(w, h, x, y) ==> pixels@[#[trigger] place(w, x, y)] == 0,
{
    let (nw, nh) = size_to_cover(picture, w, h);
    let data = resize(&picture.data, picture.width, picture.height, nw, nh);
    let pixels = crop_center(&data, nw, nh, w, h);
    proof {
        if picture.width == 0 || picture.height == 0 {
            assert forall|x: int, y: int| on_screen(w, h, x, y) implies pixels@[#[trigger] place(
                w,
                x,
                y,
            )] == 0 by {
                let (sx, sy) = ((nw - w) / 2 + x, (nh - h) / 2 + y);
                assert(0 <= 3 * (sy * nw + sx) && 3 * (sy * nw + sx) + 2 < 3 * nw * nh)
                    by (nonlinear_arith)
                    requires
                        0 <= sx < nw,
                        0 <= sy < nh,
                ;
            }
        }
    }
    pixels
}

/// The picture covers the whole screen and is cropped to its middle: every place of
/// the screen lies in the scaled picture, and along either side as much is cut off
/// before the screen as behind it, or one pixel more behind.
pub proof fn cover_is_whole_and_central(picture: &Picture, w: u32, h: u32, x: int, y: int)
    requires
        on_screen(w, h, x, y),
    ensures
        ({
            let (nw, nh) = full_size(picture, w, h);
            let (left, top) = ((nw - w) / 2, (nh - h) / 2);
            let (right, bottom) = (nw - w - left, nh - h - top);
            &&& on_screen(nw, nh, left + x, top + y)
            &&& left <= right <= left + 1
            &&& top <= bottom <= top + 1
        }),
{
}

/// Pixels that cover a screen are those in the middle of the picture once it is resized,
/// row by row: as much is cut off on the one side as on the other, or one pixel more on
/// the right and at the bottom.
pub proof fn background_is_the_middle(
    pixels: Seq<u32>,
    picture: &Picture,
    w: u32,
    h: u32,
    x: int,
    y: int,
)
    requires
        is_cover(pixels, picture, w, h),
        0 <= x < w,
        0 <= y < h,
    ensures
        ({
            let (nw, nh) = full_size(picture, w, h);
            let data = resized(picture.data@, picture.width, picture.height, nw, nh);
            let k = 3 * (((nh - h) / 2 + y) * nw + (nw - w) / 2 + x);
            &&& nw >= w && nh >= h
            &&& pixels.len() == w * h
            &&& pixels[y * w + x] == data[k] * 0x1_0000 + data[k + 1] * 0x100 + data[k + 2]
        }),
{
    let (nw, nh) = full_size(picture, w, h);
    let data = resized(picture.data@, picture.width, picture.height, nw, nh);
    middle_is_cropped(pixels, data, nw, nh, w, h, x, y);
}

/// Cropping keeps the middle, row by row.
pub proof fn middle_is_cropped(
    pixels: Seq<u32>,
    data: Seq<u8>,
    nw: u32,
    nh: u32,
    w: u32,
    h: u32,
    x: int,
    y: int,
)
    requires
        is_crop(pixels, data, nw, nh, w, h),
        0 <= x < w,
        0 <= y < h,
    ensures
        ({
            let k = 3 * (((nh - h) / 2 + y) * nw + (nw - w) / 2 + x);
            &&& pixels.len() == w * h
            &&& pixels[y * w + x] == data[k] * 0x1_0000 + data[k + 1] * 0x100 + data[k + 2]
        }),
{
    assert(on_screen(w, h, x, y));
    let k = 3 * (((nh - h) / 2 + y) * nw + (nw - w) / 2 + x);
    assert(pixels[place(w, x, y)] == crop_pixel(data, nw, nh, w, h, x, y));
    assert(crop_pixel(data, nw, nh, w, h, x, y) == packed(data[k], data[k + 1], data[k + 2]));
}

/// A picture can be scaled to cover a screen where no side is longer than 2097152
/// pixels, neither its own nor one that it is resized to, and the bytes of what comes
/// out, of what lies between and of the screen are no more than a vector can hold.
pub proof fn covering_is_bounded_by_size_alone(picture: &Picture, w: u32, h: u32)
    ensures
        ({
            let (nw, nh) = full_size(picture, w, h);
            can_cover(picture, w, h) <==> {
                &&& picture.width <= 2097152 && picture.height <= 2097152
                &&& nw <= 2097152 && nh <= 2097152
                &&& 3 * nw * nh <= isize::MAX
                &&& 16 * picture.width * nh <= isize::MAX
                &&& 4 * w * h <= isize::MAX
            }
        }),
{
}

/// A picture with pixels is resized to fill the screen with its aspect kept: both sides
/// are scaled by one ratio, the larger of those of the screen's sides to the picture's,
/// and rounded up, and neither is shorter than the screen's. The size that it is resized
/// to is that on both sides, up to one part of 524288 of a pixel that rounding may take
/// for nothing or for a whole one; so neither side is two pixels off, and one of them
/// exceeds the screen's by one pixel at most. This is stated of pictures whose scaled
/// sides are no larger than the largest number.
pub proof fn picture_is_resized_in_proportion(picture: &Picture, w: u32, h: u32)
    requires
        picture.width > 0,
        picture.height > 0,
        w * picture.height <= u32::MAX * picture.width || w * picture.height < h * picture.width,
        h * picture.width <= u32::MAX * picture.height || w * picture.height >= h * picture.width,
    ensures
        ({
            let (iw, ih) = (picture.width, picture.height);
            let (nw, nh) = full_size(picture, w, h);
            let (n, d) = if w * ih >= h * iw {
                (w, iw)
            } else {
                (h, ih)
            };
            &&& nw >= w && nh >= h
            &&& 524288 * (iw * n) - d <= 524288 * (nw * d)
            &&& 524288 * ((nw - 1) * d) < 524288 * (iw * n) + d
            &&& 524288 * (ih * n) - d <= 524288 * (nh * d)
            &&& 524288 * ((nh - 1) * d) < 524288 * (ih * n) + d
            &&& iw * n - d <= nw * d < iw * n + 2 * d
            &&& ih * n - d <= nh * d < ih * n + 2 * d
            &&& nw <= w + 1 || nh <= h + 1
        }),
{
    let (iw, ih) = (picture.width, picture.height);
    let (nw, nh) = full_size(picture, w, h);
    let (n, d) = if w * ih >= h * iw {
        (w, iw)
    } else {
        (h, ih)
    };
    assert(iw * w == w * iw && ih * h == h * ih && ih * w == w * ih && iw * h == h * iw)
        by (nonlinear_arith);
    assert(iw * n <= u32::MAX * d && ih * n <= u32::MAX * d) by {
        assert(iw * w <= u32::MAX * iw && ih * h <= u32::MAX * ih) by (nonlinear_arith)
            requires
                w <= u32::MAX,
                h <= u32::MAX,
        ;
    }
    assert(iw * n >= w * d && ih * n >= h * d);
    sides_are_rounded_up(iw, n, d);
    sides_are_rounded_up(ih, n, d);
    raised_side_is_rounded_up(iw, n, d, scaled_side(iw, n, d), w);
    raised_side_is_rounded_up(ih, n, d, scaled_side(ih, n, d), h);
    if w * ih >= h * iw {
        assert(nw <= w + 1) by (nonlinear_arith)
            requires
                nw * d < w * d + 2 * d,
                d > 0,
        ;
    } else {
        assert(nh <= h + 1) by (nonlinear_arith)
            requires
                nh * d < h * d + 2 * d,
                d > 0,
        ;
    }
}

proof fn raised_side_is_rounded_up(i: u32, n: u32, d: u32, side: u32, screen: u32)
    requires
        d > 0,
        i * n >= screen * d,
        524288 * (i * n) - d <= 524288 * (side * d),
        524288 * ((side - 1) * d) < 524288 * (i * n) + d,
    ensures
        ({
            let out = at_least(side, screen);
            &&& 524288 * (i * n) - d <= 524288 * (out * d)
            &&& 524288 * ((out - 1) * d) < 524288 * (i * n) + d
            &&& i * n - d <= out * d < i * n + 2 * d
        }),
{
    let out = at_least(side, screen);
    assert((out - 1) * d == out * d - d && (side - 1) * d == side * d - d) by (nonlinear_arith);
    if side < screen {
        assert(side * d <= screen * d) by (nonlinear_arith)
            requires
                side < screen,
                d > 0,
        ;
    }
}

/// On either side a picture is resized to the screen's side or to its own, scaled as in
/// double precision by the larger of the two ratios, whichever is longer. One without
/// width gets the screen's; where the screen has any, its height becomes the largest
/// number, and is scaled by its own ratio otherwise. So for one without height.
pub proof fn picture_is_resized_to_the_longer_side(picture: &Picture, w: u32, h: u32)
    ensures
        ({
            let (iw, ih) = (picture.width, picture.height);
            let (nw, nh) = full_size(picture, w, h);
            &&& nw >= w && nh >= h
            &&& iw > 0 && ih > 0 && w * ih >= h * iw ==> {
                &&& nw == w || nw == scaled_side(iw, w, iw)
                &&& nh == h || nh == scaled_side(ih, w, iw)
                &&& nw >= scaled_side(iw, w, iw) && nh >= scaled_side(ih, w, iw)
            }
            &&& iw > 0 && ih > 0 && w * ih < h * iw ==> {
                &&& nw == w || nw == scaled_side(iw, h, ih)
                &&& nh == h || nh == scaled_side(ih, h, ih)
                &&& nw >= scaled_side(iw, h, ih) && nh >= scaled_side(ih, h, ih)
            }
            &&& iw == 0 ==> nw == w
            &&& ih == 0 ==> nh == h
            &&& iw == 0 && w > 0 && ih > 0 ==> nh == u32::MAX
            &&& ih == 0 && h > 0 && iw > 0 ==> nw == u32::MAX
            &&& iw == 0 && w == 0 && ih > 0 ==> nh == h || nh == scaled_side(ih, h, ih)
            &&& iw == 0 && w == 0 && ih > 0 ==> nh >= scaled_side(ih, h, ih)
            &&& ih == 0 && h == 0 && iw > 0 ==> nw == w || nw == scaled_side(iw, w, iw)
            &&& ih == 0 && h == 0 && iw > 0 ==> nw >= scaled_side(iw, w, iw)
        }),
{
    let (iw, ih) = (picture.width, picture.height);
    if ih > 0 {
        nothing_stays_nothing(ih, h, ih);
    }
    if iw > 0 {
        nothing_stays_nothing(iw, w, iw);
    }
    nothing_stays_nothing(0, 0, 1);
}

} // verus!
