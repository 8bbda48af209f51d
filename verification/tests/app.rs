use locker::app::{
    position, window_targets, Action, App, Event, KeyPress, Painted, Wait, Wake, WindowState,
};
use locker::cover::{scale_cover, Picture};
use locker::paint::{Mask, Stamp};
use locker::screen::{render_default, Overlay};

fn app(code: &str) -> App {
    App::new(code.to_string(), None)
}

fn key(pressed: bool, character: Option<&str>, text: Option<&str>) -> KeyPress {
    KeyPress {
        pressed,
        character: character.map(|c| c.to_string()),
        text: text.map(|t| t.to_string()),
    }
}

fn enter(app: &mut App, text: &str) -> Action {
    app.handle_key(&key(true, Some(text), Some(text)))
}

/// Types character by character; tells at which the screen unlocked.
fn type_all(app: &mut App, text: &str) -> Vec<usize> {
    let mut at = Vec::new();
    for (i, c) in text.chars().enumerate() {
        if enter(app, &c.to_string()) == Action::Exit {
            at.push(i);
        }
    }
    at
}

#[test]
fn code_unlocks() {
    assert_eq!(type_all(&mut app("unlock"), "unlock"), vec![5]);
    assert_eq!(type_all(&mut app("\u{e9}\u{1f511}"), "x\u{e9}\u{1f511}"), vec![2]);
}

#[test]
fn mistyped_characters_do_not_matter() {
    assert_eq!(type_all(&mut app("unlock"), "unlokunlock"), vec![10]);
    assert_eq!(type_all(&mut app("aab"), "aaab"), vec![3]);
    assert_eq!(type_all(&mut app("aa"), "aaa"), vec![1, 2]);
    assert_eq!(type_all(&mut app("unlock"), "unlocl"), Vec::<usize>::new());
    assert_eq!(type_all(&mut app("unlock"), "UNLOCK"), Vec::<usize>::new());
}

#[test]
fn only_the_last_characters_are_remembered() {
    let mut a = app("abcd");
    type_all(&mut a, "xy");
    assert_eq!(a.typed, "xy");
    type_all(&mut a, "z12345");
    assert_eq!(a.typed, "2345");
}

#[test]
fn a_key_may_enter_more_than_one_character() {
    let mut a = app("abc");
    assert_eq!(enter(&mut a, "xxabc"), Action::Exit);
    assert_eq!(enter(&mut a, "abcx"), Action::Nothing);
    assert_eq!(a.typed, "bcx");
}

#[test]
fn control_codes_are_left_out() {
    let mut a = app("ab");
    assert_eq!(enter(&mut a, "a"), Action::Nothing);
    assert_eq!(enter(&mut a, "\r"), Action::Nothing);
    assert_eq!(enter(&mut a, "\u{8}\u{7f}\u{9f}"), Action::Nothing);
    assert_eq!(a.typed, "a");
    assert_eq!(enter(&mut a, "\tb\n"), Action::Exit);
    // Enter leaves the code standing.
    assert_eq!(enter(&mut a, "\r"), Action::Exit);
}

#[test]
fn control_codes_are_those_of_unicode() {
    let mut a = app("x");
    for n in 0..=0x10ffffu32 {
        if let Some(c) = char::from_u32(n) {
            a.typed = String::new();
            enter(&mut a, &c.to_string());
            let control = n <= 0x1f || (0x7f..=0x9f).contains(&n);
            assert_eq!(a.typed.is_empty(), control, "{n:x}");
        }
    }
}

#[test]
fn empty_code_unlocks_at_any_text() {
    let mut a = app("");
    assert_eq!(enter(&mut a, "q"), Action::Exit);
    assert_eq!(a.typed, "");
    assert_eq!(a.handle_key(&key(true, None, None)), Action::Nothing);
}

#[test]
fn releases_and_silent_keys_do_nothing() {
    let mut a = app("a");
    assert_eq!(a.handle_key(&key(false, Some("a"), Some("a"))), Action::Nothing);
    assert_eq!(a.handle_key(&key(true, Some("a"), None)), Action::Nothing);
    assert_eq!(a.typed, "");
}

#[test]
fn code_with_a_control_code_cannot_be_typed() {
    assert_eq!(type_all(&mut app("a\tb"), "a\tb"), Vec::<usize>::new());
}

fn open(app: &mut App, ids: &[u64]) {
    let created: Vec<Option<u64>> = ids.iter().map(|id| Some(*id)).collect();
    app.create_windows(&created);
}

fn ids(app: &App) -> Vec<u64> {
    app.windows.iter().map(|window| window.id).collect()
}

#[test]
fn ctrl_z_suspends() {
    for c in ["z", "Z"] {
        let mut a = app("ab");
        open(&mut a, &[1, 2]);
        type_all(&mut a, "a");
        a.window_event(1, &Event::ModifiersChanged(true));
        let press = Event::KeyboardInput(key(true, Some(c), Some("\u{1a}")));
        assert_eq!(a.window_event(1, &press), Action::Suspend);
        assert!(a.windows.is_empty() && a.typed.is_empty() && !a.control && a.pending_suspend);
        assert!(!a.resumed());
        assert_eq!(a.about_to_wait(), Wait::Millis(80));
        assert!(matches!(a.new_events(false), Wake::Nothing));
        assert!(a.pending_suspend);
        assert!(matches!(a.new_events(true), Wake::StopAndReopen));
        assert!(!a.pending_suspend && a.resumed());
        open(&mut a, &[3]);
        assert!(!a.resumed());
        assert_eq!(type_all(&mut a, "b"), Vec::<usize>::new());
        assert_eq!(type_all(&mut a, "ab"), vec![1]);
    }
}

#[test]
fn other_keys_with_control_do_nothing() {
    let mut a = app("a");
    open(&mut a, &[1]);
    a.window_event(1, &Event::ModifiersChanged(true));
    for c in [Some("a"), Some("zz"), Some(""), Some("\u{17e}"), None] {
        assert_eq!(a.handle_key(&key(true, c, Some("a"))), Action::Nothing);
    }
    assert_eq!(a.handle_key(&key(false, Some("z"), None)), Action::Nothing);
    assert_eq!((a.typed.as_str(), a.windows.len()), ("", 1));
    a.window_event(1, &Event::ModifiersChanged(false));
    assert_eq!(enter(&mut a, "a"), Action::Exit);
}

#[test]
fn closing_is_refused() {
    let mut a = app("ab");
    open(&mut a, &[1]);
    type_all(&mut a, "a");
    assert_eq!(a.window_event(1, &Event::CloseRequested), Action::Nothing);
    assert_eq!(a.window_event(1, &Event::Other), Action::Nothing);
    assert_eq!((a.typed.as_str(), a.windows.len()), ("a", 1));
}

#[test]
fn typing_shows_nothing() {
    let mut a = app("ab");
    open(&mut a, &[1]);
    let press = Event::KeyboardInput(key(true, Some("q"), Some("q")));
    assert_eq!(a.window_event(1, &press), Action::Nothing);
    assert_eq!(ids(&a), vec![1]);
}

#[test]
fn windows_by_number() {
    let windows: Vec<WindowState> = [4, 7, 4]
        .iter()
        .map(|id| WindowState {
            id: *id,
            scaled_bg: None,
        })
        .collect();
    assert_eq!(position(&windows, 4), Some(0));
    assert_eq!(position(&windows, 7), Some(1));
    assert_eq!(position(&windows, 5), None);
}

#[test]
fn one_window_for_each_monitor() {
    assert_eq!(window_targets(0), vec![None]);
    assert_eq!(window_targets(1), vec![Some(0)]);
    assert_eq!(window_targets(3), vec![Some(0), Some(1), Some(2)]);
}

#[test]
fn windows_that_fail_are_skipped() {
    let mut a = app("x");
    assert!(a.resumed());
    a.create_windows(&vec![Some(5), None, Some(2), None]);
    assert_eq!(ids(&a), vec![5, 2]);
    a.create_windows(&vec![None, Some(9)]);
    assert_eq!(ids(&a), vec![5, 2, 9]);
    assert!(!a.resumed());
}

#[test]
fn timer_redraws_every_window() {
    let mut a = app("x");
    open(&mut a, &[5, 2]);
    match a.new_events(true) {
        Wake::Redraw(ids) => assert_eq!(ids, vec![5, 2]),
        _ => panic!("a redraw is due"),
    }
    assert!(matches!(a.new_events(false), Wake::Nothing));
}

#[test]
fn clock_ticks_with_the_second() {
    let mut a = app("x");
    assert_eq!(a.wait_from(300), Wait::Forever);
    open(&mut a, &[1]);
    for (subsec, ms) in [(0, 1000), (1, 999), (300, 700), (980, 20), (981, 20), (999, 20), (1500, 20)] {
        assert_eq!(a.wait_from(subsec), Wait::Millis(ms));
    }
    match a.about_to_wait() {
        Wait::Millis(ms) => assert!((20..=1000).contains(&ms)),
        Wait::Forever => panic!("the clock must tick"),
    }
    let mut with_image = App::new("x".to_string(), Picture::from_raw(1, 1, vec![1, 2, 3]));
    open(&mut with_image, &[1]);
    assert_eq!(with_image.about_to_wait(), Wait::Forever);
    with_image.begin_suspend();
    assert_eq!(with_image.about_to_wait(), Wait::Millis(80));
}

fn picture() -> Picture {
    let data = (0..60).map(|i| (i * 7) as u8).collect();
    Picture::from_raw(5, 4, data).unwrap()
}

#[test]
fn image_is_drawn_and_kept() {
    let mut a = App::new("x".to_string(), Some(picture()));
    open(&mut a, &[1, 2]);
    assert!(a.drawable(2, 8, 6) && a.needs_scaling(2, 8, 6));
    let mut buf = vec![0u32; 48];
    assert_eq!(a.draw(2, 8, 6, &Overlay::empty(), &mut buf), Painted::Image);
    assert_eq!(buf, scale_cover(&picture(), 8, 6));
    assert!(a.windows[0].scaled_bg.is_none());
    assert!(!a.needs_scaling(2, 8, 6) && a.needs_scaling(2, 6, 8) && a.needs_scaling(1, 8, 6));

    // Drawn again at the same size, the same is shown.
    let mut again = vec![0u32; 48];
    assert_eq!(a.draw(2, 8, 6, &Overlay::empty(), &mut again), Painted::Image);
    assert_eq!(again, buf);

    // At another size the image is scaled anew.
    let mut other = vec![0u32; 20];
    assert_eq!(a.draw(2, 5, 4, &Overlay::empty(), &mut other), Painted::Image);
    assert_eq!(other, scale_cover(&picture(), 5, 4));
    assert!(a.needs_scaling(2, 8, 6));
}

#[test]
fn resizing_drops_the_background() {
    let mut a = App::new("x".to_string(), Some(picture()));
    open(&mut a, &[1, 2]);
    let mut buf = vec![0u32; 20];
    for id in [1, 2] {
        a.draw(id, 5, 4, &Overlay::empty(), &mut buf);
        assert!(!a.needs_scaling(id, 5, 4));
    }
    assert_eq!(a.window_event(1, &Event::Resized), Action::Redraw(1));
    assert!(a.needs_scaling(1, 5, 4) && !a.needs_scaling(2, 5, 4));
    assert_eq!(a.window_event(9, &Event::Resized), Action::Nothing);
    assert!(!a.needs_scaling(2, 5, 4));
    assert_eq!(a.window_event(9, &Event::RedrawRequested), Action::Draw(9));
}

#[test]
fn built_in_screen_is_drawn() {
    let mut a = app("x");
    open(&mut a, &[1]);
    let mask = Mask {
        width: 2,
        height: 2,
        cover: vec![255, 100, 0, 7],
    };
    let overlay = Overlay {
        padlock: Stamp::new(1, 1, mask).unwrap(),
        ..Overlay::empty()
    };
    let mut buf = vec![0u32; 12];
    assert!(!a.needs_scaling(1, 4, 3));
    assert_eq!(a.draw(1, 4, 3, &overlay, &mut buf), Painted::BuiltIn);
    let mut expected = vec![0u32; 12];
    render_default(&mut expected, 4, 3, &overlay);
    assert_eq!(buf, expected);
}

#[test]
fn nothing_is_drawn_without_window_or_pixels() {
    let mut a = app("x");
    open(&mut a, &[1]);
    for (id, w, h) in [(2, 2, 2), (1, 0, 2), (1, 2, 0)] {
        let mut buf = vec![7u32; 4];
        assert!(!a.drawable(id, w, h));
        assert_eq!(a.draw(id, w, h, &Overlay::empty(), &mut buf), Painted::Nothing);
        assert_eq!(buf, vec![7u32; 4]);
    }
}

#[test]
fn code_may_be_typed_across_other_events() {
    let mut a = app("abc");
    open(&mut a, &[1, 2]);
    let press = |c: &str| Event::KeyboardInput(key(true, Some(c), Some(c)));
    assert_eq!(a.window_event(1, &press("a")), Action::Nothing);
    a.window_event(2, &Event::Resized);
    a.window_event(1, &Event::ModifiersChanged(true));
    assert_eq!(a.window_event(1, &press("x")), Action::Nothing);
    assert_eq!(a.window_event(1, &press("b")), Action::Nothing);
    a.window_event(2, &Event::ModifiersChanged(false));
    a.window_event(1, &Event::CloseRequested);
    assert_eq!(a.window_event(2, &press("b")), Action::Nothing);
    assert_eq!(a.window_event(1, &press("c")), Action::Exit);
}

#[test]
fn stopping_waits_for_the_timer() {
    let mut a = app("abc");
    open(&mut a, &[1]);
    a.begin_suspend();
    for event in [
        Event::CloseRequested,
        Event::ModifiersChanged(true),
        Event::KeyboardInput(key(true, Some("z"), None)),
        Event::Resized,
        Event::RedrawRequested,
        Event::Other,
    ] {
        a.window_event(1, &event);
        assert!(a.pending_suspend && a.windows.is_empty() && !a.resumed());
    }
}
