use locker::cover::{crop_center, fits, scale_cover, Picture, MAX_SIDE};
use locker::paint::pack;
use locker::scale::cover_sides;

fn picture(width: u32, height: u32) -> Picture {
    let data = (0..width * height * 3).map(|i| (i * 37 % 256) as u8).collect();
    Picture::from_raw(width, height, data).unwrap()
}

#[test]
fn picture_needs_three_bytes_a_pixel() {
    assert!(Picture::from_raw(2, 2, vec![0; 12]).is_some());
    assert!(Picture::from_raw(2, 2, vec![0; 11]).is_none());
    assert!(Picture::from_raw(2, 2, vec![0; 13]).is_none());
    assert!(Picture::from_raw(0, 5, Vec::new()).is_some());
    assert!(Picture::from_raw(u32::MAX, u32::MAX, Vec::new()).is_none());
}

#[test]
fn crops_to_the_middle() {
    // Five columns and four rows; red tells the column, green the row.
    let mut data = Vec::new();
    for y in 0..4u8 {
        for x in 0..5u8 {
            data.extend([x, y, 9]);
        }
    }
    assert_eq!(
        crop_center(&data, 5, 4, 2, 2),
        vec![pack(1, 1, 9), pack(2, 1, 9), pack(1, 2, 9), pack(2, 2, 9)]
    );
    assert_eq!(crop_center(&data, 5, 4, 5, 4)[19], pack(4, 3, 9));
    assert_eq!(crop_center(&data, 5, 4, 0, 3), Vec::<u32>::new());
}

#[test]
fn picture_of_the_right_size_is_shown_as_it_is() {
    let p = picture(4, 3);
    let pixels = scale_cover(&p, 4, 3);
    assert_eq!(pixels.len(), 12);
    for (i, px) in pixels.iter().enumerate() {
        assert_eq!(*px, pack(p.data[3 * i], p.data[3 * i + 1], p.data[3 * i + 2]));
    }
}

/// The size at which a picture covers a screen, in floating point.
fn sides(iw: u32, ih: u32, w: u32, h: u32) -> (u32, u32) {
    let scale = (f64::from(w) / f64::from(iw)).max(f64::from(h) / f64::from(ih));
    (
        (f64::from(iw) * scale).ceil() as u32,
        (f64::from(ih) * scale).ceil() as u32,
    )
}

#[test]
fn scales_with_the_triangle_filter() {
    for (iw, ih, w, h) in [
        (2, 1, 4, 2),
        (7, 5, 20, 10),
        (30, 20, 8, 8),
        (3, 9, 5, 4),
        (5, 4, 8, 6),
        (1, 1, 3, 7),
        (16, 9, 16, 9),
    ] {
        let p = picture(iw, ih);
        let img: image::RgbImage = image::ImageBuffer::from_raw(iw, ih, p.data.clone()).unwrap();
        let (sw, sh) = sides(iw, ih, w, h);
        let (nw, nh) = (sw.max(w), sh.max(h));
        let big = image::imageops::resize(&img, nw, nh, image::imageops::FilterType::Triangle);
        let (x0, y0) = ((nw - w) / 2, (nh - h) / 2);
        let mut expected = Vec::new();
        for y in 0..h {
            for x in 0..w {
                let px = big.get_pixel(x0 + x, y0 + y);
                expected.push(pack(px[0], px[1], px[2]));
            }
        }
        assert_eq!(scale_cover(&p, w, h), expected);
    }
}

#[test]
fn two_pixels_become_four() {
    let p = Picture::from_raw(2, 1, vec![0, 0, 0, 200, 200, 200]).unwrap();
    // Scaled to four by two, of which the upper row is shown.
    assert_eq!(
        scale_cover(&p, 4, 1),
        vec![0, pack(50, 50, 50), pack(150, 150, 150), pack(200, 200, 200)]
    );
}

#[test]
fn picture_without_pixels_is_black() {
    let p = Picture::from_raw(0, 0, Vec::new()).unwrap();
    assert_eq!(scale_cover(&p, 3, 2), vec![0; 6]);
}

#[test]
fn size_limits() {
    assert!(fits(&picture(4, 3), 1920, 1080));
    assert!(fits(&picture(4, 3), 0, 0));
    assert!(fits(&picture(1, 1000), 2000, 10));
    assert!(!fits(&picture(1, 1000), 2098, 10));
    assert!(!fits(&picture(4, 3), MAX_SIDE + 1, 10));
    assert!(!fits(&picture(4, 3), 10, u32::MAX));
    assert!(!fits(&picture(0, 5), 10, 10));
}

#[test]
fn small_sizes_are_those_of_double_precision() {
    for iw in 0..=20 {
        for ih in 0..=20 {
            for w in 0..=20 {
                for h in 0..=20 {
                    assert_eq!(cover_sides(iw, ih, w, h), sides(iw, ih, w, h));
                }
            }
        }
    }
}

#[test]
fn all_sizes_are_those_of_double_precision() {
    let mut seed: u64 = 88172645463325252;
    let mut next = || {
        seed ^= seed << 13;
        seed ^= seed >> 7;
        seed ^= seed << 17;
        (seed >> 32) as u32 >> (seed % 29)
    };
    for _ in 0..200_000 {
        let (iw, ih, w, h) = (next(), next(), next(), next());
        assert_eq!(cover_sides(iw, ih, w, h), sides(iw, ih, w, h), "{iw} {ih} {w} {h}");
    }
    for w in [1920u32, 2047, 2048, 4095, 4096, 65535, 0x7fff_ffff, u32::MAX] {
        for iw in (1..3000).chain([0x7fff_ffff, 0xffff_fffe, u32::MAX]) {
            assert_eq!(cover_sides(iw, 1, w, 1), sides(iw, 1, w, 1), "{iw} {w}");
            assert_eq!(cover_sides(iw, iw, w, w), sides(iw, iw, w, w), "{iw} {w}");
        }
    }
}

#[test]
fn aspect_is_kept() {
    assert_eq!(cover_sides(400, 300, 1920, 1080), (1920, 1440));
    assert_eq!(cover_sides(300, 400, 1920, 1080), (1920, 2560));
    assert_eq!(cover_sides(1920, 1080, 1024, 768), (1366, 768));
    assert_eq!(cover_sides(1, u32::MAX, 2, 1), (2, u32::MAX));
}
