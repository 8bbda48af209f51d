use locker::fonts::{font_candidates, FcMatch, FontSearch};

const KNOWN: [&str; 6] = [
    "/usr/share/fonts/TTF/DejaVuSans-Bold.ttf",
    "/usr/share/fonts/TTF/DejaVuSans.ttf",
    "/usr/share/fonts/liberation/LiberationSans-Bold.ttf",
    "/usr/share/fonts/noto/NotoSans-Bold.ttf",
    "/usr/share/fonts/noto/NotoSans-Regular.ttf",
    "/usr/share/fonts/gnu-free/FreeSansBold.otf",
];

fn run(success: bool, stdout: &[u8]) -> FcMatch {
    FcMatch {
        success,
        stdout: stdout.to_vec(),
    }
}

fn with_first(first: &str) -> Vec<String> {
    let mut all = vec![first.to_string()];
    all.extend(KNOWN.iter().map(|path| path.to_string()));
    all
}

#[test]
fn known_fonts_are_tried() {
    assert_eq!(font_candidates(None), KNOWN);
    assert_eq!(font_candidates(Some("")), KNOWN);
    assert_eq!(font_candidates(Some(" \n")), KNOWN);
}

#[test]
fn named_font_comes_first() {
    assert_eq!(font_candidates(Some("/a/b.ttf\n")), with_first("/a/b.ttf"));
    assert_eq!(font_candidates(Some("  /a b.ttf ")), with_first("/a b.ttf"));
}

#[test]
fn fc_match_is_believed_where_it_ended_well() {
    assert_eq!(FontSearch::new(None).paths, KNOWN);
    assert_eq!(FontSearch::new(Some(&run(false, b"/a.ttf"))).paths, KNOWN);
    assert_eq!(FontSearch::new(Some(&run(true, b"  "))).paths, KNOWN);
    assert_eq!(
        FontSearch::new(Some(&run(true, b"/a.ttf\n"))).paths,
        with_first("/a.ttf")
    );
}

#[test]
fn bytes_that_are_no_text_are_replaced() {
    assert_eq!(
        FontSearch::new(Some(&run(true, b"/\xff\xc3\xa9.ttf"))).paths,
        with_first("/\u{fffd}\u{e9}.ttf")
    );
}

fn tried(usable: &[bool; 6]) -> Option<usize> {
    let mut search = FontSearch::new(None);
    while let Some(path) = search.next_path() {
        let at = KNOWN.iter().position(|known| known == path).unwrap();
        search.report(usable[at]);
        if search.found {
            assert!(search.next_path().is_none());
            return Some(at);
        }
    }
    assert_eq!(search.tried, 6);
    None
}

#[test]
fn first_usable_font_is_found() {
    assert_eq!(tried(&[true; 6]), Some(0));
    assert_eq!(tried(&[false, false, true, true, false, true]), Some(2));
    assert_eq!(tried(&[false, false, false, false, false, true]), Some(5));
    assert_eq!(tried(&[false; 6]), None);
}
