use locker::paint::{blend_px, draw_mask, fill_backdrop, Mask, Stamp, BRIGHT, FAINT};
use locker::screen::{
    draw_text, lock_icon, padlock_cover, render_default, Overlay, Sample,
};

fn sample(body: bool, shackle: bool, keyhole: bool) -> Sample {
    Sample {
        body,
        shackle,
        keyhole,
    }
}

#[test]
fn keyhole_is_cut_out_of_the_body() {
    assert!(sample(true, false, false).inside());
    assert!(!sample(true, false, true).inside());
    assert!(sample(true, true, true).inside());
    assert!(sample(false, true, false).inside());
    assert!(sample(false, true, true).inside());
    assert!(!sample(false, false, true).inside());
    assert!(!sample(false, false, false).inside());
}

#[test]
fn cover_counts_points() {
    let (yes, no) = (sample(true, false, false), sample(false, false, false));
    assert_eq!(padlock_cover(&[no, no, no, no]), 0);
    assert_eq!(padlock_cover(&[no, yes, no, no]), 63);
    assert_eq!(padlock_cover(&[yes, no, no, yes]), 127);
    assert_eq!(padlock_cover(&[yes, yes, no, yes]), 191);
    assert_eq!(padlock_cover(&[yes, yes, yes, yes]), 255);
}

#[test]
fn padlock_becomes_a_mask() {
    let (yes, no) = (sample(true, false, false), sample(false, false, false));
    let samples = vec![[yes; 4], [no; 4], [yes, no, yes, no], [no, no, no, yes]];
    let icon = lock_icon(-3, 5, 2, 2, &samples).unwrap();
    assert_eq!((icon.left, icon.top), (-3, 5));
    assert_eq!((icon.mask.width, icon.mask.height), (2, 2));
    assert_eq!(icon.mask.cover, vec![255, 0, 127, 63]);
    assert!(lock_icon(0, 0, 3, 2, &samples).is_none());
    assert!(lock_icon(i64::MAX, 0, 2, 2, &samples).is_none());
}

fn stamp(left: i64, top: i64, width: usize, height: usize, cover: u8) -> Stamp {
    let mask = Mask {
        width,
        height,
        cover: vec![cover; width * height],
    };
    Stamp::new(left, top, mask).unwrap()
}

#[test]
fn glyphs_are_painted_one_after_the_other() {
    let glyphs = vec![stamp(0, 0, 2, 2, 100), stamp(1, 1, 2, 2, 200)];
    let mut buf = vec![0x0012_3456u32; 9];
    draw_text(&mut buf, 3, 3, &glyphs, FAINT);
    let mut expected = vec![0x0012_3456u32; 9];
    draw_mask(&mut expected, 3, 3, &glyphs[0], FAINT);
    draw_mask(&mut expected, 3, 3, &glyphs[1], FAINT);
    assert_eq!(buf, expected);
    let mut twice = vec![0x0012_3456u32; 9];
    blend_px(&mut twice, 3, 3, 1, 1, FAINT, 100);
    blend_px(&mut twice, 3, 3, 1, 1, FAINT, 200);
    assert_eq!(buf[4], twice[4]);
    draw_text(&mut buf, 3, 3, &Vec::new(), FAINT);
    assert_eq!(buf, expected);
}

#[test]
fn built_in_screen_in_order() {
    let overlay = Overlay {
        padlock: stamp(0, 0, 3, 1, 255),
        time: vec![stamp(1, 0, 2, 2, 128)],
        date: vec![stamp(2, 0, 2, 3, 64), stamp(0, 2, 1, 1, 255)],
    };
    let mut buf = vec![0u32; 13];
    render_default(&mut buf, 4, 3, &overlay);
    let mut expected = vec![0u32; 13];
    fill_backdrop(&mut expected, 4, 3);
    draw_mask(&mut expected, 4, 3, &overlay.padlock, BRIGHT);
    draw_mask(&mut expected, 4, 3, &overlay.time[0], BRIGHT);
    draw_mask(&mut expected, 4, 3, &overlay.date[0], FAINT);
    draw_mask(&mut expected, 4, 3, &overlay.date[1], FAINT);
    assert_eq!(buf, expected);
}

#[test]
fn without_overlay_the_backdrop_shows() {
    let mut buf = vec![0u32; 12];
    render_default(&mut buf, 4, 3, &Overlay::empty());
    let mut expected = vec![0u32; 12];
    fill_backdrop(&mut expected, 4, 3);
    assert_eq!(buf, expected);
}
