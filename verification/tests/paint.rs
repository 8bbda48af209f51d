use locker::paint::{
    blend_px, draw_mask, fill_backdrop, mix, pack, unpack, Mask, Stamp, BRIGHT,
};

fn stamp(left: i64, top: i64, width: usize, height: usize, cover: &[u8]) -> Stamp {
    let mask = Mask {
        width,
        height,
        cover: cover.to_vec(),
    };
    Stamp::new(left, top, mask).unwrap()
}

#[test]
fn packs_0rgb() {
    assert_eq!(pack(0, 0, 0), 0);
    assert_eq!(pack(0x12, 0x34, 0x56), 0x0012_3456);
    assert_eq!(pack(255, 255, 255), 0x00ff_ffff);
}

#[test]
fn unpacking_undoes_packing() {
    for (r, g, b) in [(0, 0, 0), (1, 2, 3), (255, 0, 128), (254, 255, 253)] {
        assert_eq!(unpack(pack(r, g, b)), (r, g, b));
    }
    assert_eq!(unpack(0xff12_3456), (0x12, 0x34, 0x56));
}

#[test]
fn mixes_in_proportion() {
    for d in 0..=255u8 {
        for a in 0..=255u8 {
            for s in [0u8, 1, 100, 254, 255] {
                let expected = (u32::from(d) * (255 - u32::from(a)) + u32::from(s) * u32::from(a)) / 255;
                assert_eq!(u32::from(mix(d, s, a)), expected);
            }
        }
    }
    assert_eq!(mix(10, 200, 0), 10);
    assert_eq!(mix(10, 200, 255), 200);
    assert_eq!(mix(10, 200, 128), 105);
}

#[test]
fn blends_one_pixel() {
    let mut buf = vec![0xff00_0000u32 | pack(10, 20, 30); 6];
    blend_px(&mut buf, 3, 2, 1, 1, (200, 100, 0), 128);
    assert_eq!(buf[4], pack(105, 60, 14));
    for i in [0, 1, 2, 3, 5] {
        assert_eq!(buf[i], 0xff00_0000 | pack(10, 20, 30));
    }
}

#[test]
fn blends_nothing_off_the_screen_or_without_cover() {
    let before = vec![7u32; 6];
    for (x, y, alpha) in [
        (-1, 0, 255),
        (0, -1, 255),
        (3, 0, 255),
        (0, 2, 255),
        (i64::MIN, i64::MAX, 255),
        (1, 1, 0),
    ] {
        let mut buf = before.clone();
        blend_px(&mut buf, 3, 2, x, y, (255, 255, 255), alpha);
        assert_eq!(buf, before);
    }
    let mut none: Vec<u32> = Vec::new();
    blend_px(&mut none, 0, 0, 0, 0, (1, 2, 3), 255);
    blend_px(&mut none, 3, 2, 0, 0, (1, 2, 3), 0);
    assert!(none.is_empty());
}

#[test]
fn masks_are_clipped() {
    let cover = [255, 0, 255, 128, 255, 64];
    let mut buf = vec![0x0a0a_0a0au32; 8];
    draw_mask(&mut buf, 4, 2, &stamp(-1, 1, 3, 2, &cover), (200, 100, 50));
    let mut expected = vec![0x0a0a_0a0au32; 8];
    expected[5] = pack(200, 100, 50);
    assert_eq!(buf, expected);

    let mut buf = vec![0u32; 8];
    draw_mask(&mut buf, 4, 2, &stamp(2, 0, 3, 2, &cover), (255, 255, 255));
    assert_eq!(
        buf,
        vec![0, 0, pack(255, 255, 255), 0, 0, 0, pack(128, 128, 128), pack(255, 255, 255)]
    );

    let mut buf = vec![3u32; 9];
    draw_mask(&mut buf, 4, 2, &stamp(100, 100, 3, 2, &cover), (1, 1, 1));
    draw_mask(&mut buf, 4, 2, &stamp(i64::MIN, i64::MIN, 3, 2, &cover), (1, 1, 1));
    assert_eq!(buf, vec![3u32; 9]);
}

#[test]
fn masks_agree_with_single_pixels() {
    let cover: Vec<u8> = (0..35).map(|i| (i * 73 % 256) as u8).collect();
    let start: Vec<u32> = (0..60).map(|i| i * 0x0004_0201 + 5).collect();
    for (left, top) in [(0, 0), (-3, -2), (6, 3), (2, 1), (9, 5)] {
        let mut whole = start.clone();
        draw_mask(&mut whole, 10, 6, &stamp(left, top, 7, 5, &cover), BRIGHT);
        let mut single = start.clone();
        for by in 0..5usize {
            for bx in 0..7usize {
                let cov = cover[by * 7 + bx];
                blend_px(&mut single, 10, 6, left + bx as i64, top + by as i64, BRIGHT, cov);
            }
        }
        assert_eq!(whole, single);
    }
}

#[test]
fn stamps_have_limits() {
    let at = |left: i64, top: i64, width: usize, height: usize, n: usize| {
        let mask = Mask {
            width,
            height,
            cover: vec![1; n],
        };
        Stamp::new(left, top, mask).is_some()
    };
    assert!(at(0, 0, 3, 2, 6));
    assert!(at(0, 0, 3, 2, 7));
    assert!(!at(0, 0, 3, 2, 5));
    assert!(at(i64::MAX, i64::MAX, 1, 1, 1));
    assert!(!at(i64::MAX, 0, 2, 1, 2));
    assert!(!at(0, i64::MAX, 1, 2, 2));
    assert!(at(i64::MIN, i64::MIN, 0, 0, 0));
    assert!(!at(0, 0, usize::MAX, usize::MAX, 1));
}

#[test]
fn backdrop_is_the_gradient() {
    let sizes = (1..=1500u32).chain([2160, 4320, 65535, 65521, 100_003]);
    for h in sizes {
        let mut buf = vec![0u32; h as usize];
        fill_backdrop(&mut buf, 1, h);
        for y in 0..h {
            let t = f64::from(y) / f64::from(h.max(1));
            let r = (26.0 - 12.0 * t) as u8;
            let g = (27.0 - 13.0 * t) as u8;
            let b = (38.0 - 16.0 * t) as u8;
            assert_eq!(buf[y as usize], pack(r, g, b), "{y} of {h}");
        }
    }
}

#[test]
fn backdrop_fills_rows() {
    let mut buf = vec![1u32; 13];
    fill_backdrop(&mut buf, 3, 4);
    assert_eq!(buf[0..3], [pack(26, 27, 38); 3]);
    assert_eq!(buf[3..6], [pack(23, 23, 34); 3]);
    assert_eq!(buf[6..9], [pack(20, 20, 30); 3]);
    assert_eq!(buf[9..12], [pack(17, 17, 26); 3]);
    assert_eq!(buf[12], 1);
}

#[test]
fn backdrop_darkens() {
    let mut buf = vec![0u32; 300];
    fill_backdrop(&mut buf, 1, 300);
    for pair in buf.windows(2) {
        let (above, below) = (unpack(pair[0]), unpack(pair[1]));
        assert!(below.0 <= above.0 && below.1 <= above.1 && below.2 <= above.2);
    }
}
