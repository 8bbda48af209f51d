use locker::config::{expand_tilde, join, load_config, parse_config, rc_path, DEFAULT_CODE};
use locker::text::Margin;

const HOME: Option<&[u8]> = Some(b"/home/me");

fn code(text: &str) -> String {
    parse_config(text, HOME).code
}

fn image(text: &str) -> Option<Vec<u8>> {
    parse_config(text, HOME).image
}

#[test]
fn readme_example() {
    let text = "# the unlock code (default: unlock)\ncode = letmein\n\n# fullscreen background image; scaled to fill, center-cropped.\n# if unset or unloadable, the built-in lock screen is used.\nimage = ~/Pictures/fake-lock.png\n";
    let config = parse_config(text, HOME);
    assert_eq!(config.code, "letmein");
    assert_eq!(config.image, Some(b"/home/me/Pictures/fake-lock.png".to_vec()));
}

#[test]
fn empty_text_keeps_the_defaults() {
    for text in ["", "\n", "\n\n\r\n", "   \t \n", "# code = x", "nothing here"] {
        let config = parse_config(text, HOME);
        assert_eq!(config.code, DEFAULT_CODE);
        assert_eq!(config.code, "unlock");
        assert_eq!(config.image, None);
    }
}

#[test]
fn space_case_and_quotes_do_not_matter() {
    for text in [
        "code=abc",
        "  code  =  abc  ",
        "\tCODE=abc\t",
        "Code = \"abc\"",
        "cOdE = 'abc'",
        "code = \"'abc'\"",
        "code = \"\"abc\"\"",
        "code=abc\r",
        "\u{a0}code\u{2003}=\u{3000}abc\u{85}",
    ] {
        assert_eq!(code(text), "abc", "{text:?}");
    }
}

#[test]
fn quotes_keep_space_and_order_of_quotes_matters() {
    assert_eq!(code("code = \"  abc  \""), "  abc  ");
    assert_eq!(code("code = ' abc '"), " abc ");
    assert_eq!(code("code = '\"abc\"'"), "\"abc\"");
    assert_eq!(code("code = \"abc"), "abc");
    assert_eq!(code("code = a\"b'c"), "a\"b'c");
    assert_eq!(code("code = \" 'abc' \""), " 'abc' ");
}

#[test]
fn value_may_hold_an_equals_sign() {
    assert_eq!(code("code = a=b"), "a=b");
    assert_eq!(code("code == b"), "= b");
    assert_eq!(code("code = a#b"), "a#b");
}

#[test]
fn lines_that_settle_nothing_are_skipped() {
    for line in [
        "code",
        "code =",
        "code = \"\"",
        "code = ''",
        "code = \"''\"",
        "#code = x",
        "  # code = x",
        "= x",
        "codes = x",
        "c ode = x",
        "k\u{212a}ode = x",
    ] {
        assert_eq!(code(&format!("code = abc\n{line}\n")), "abc", "{line:?}");
        assert_eq!(code(&format!("{line}\ncode = abc")), "abc", "{line:?}");
        assert_eq!(code(line), "unlock", "{line:?}");
    }
}

#[test]
fn last_setting_wins() {
    assert_eq!(code("code = a\ncode = b\n"), "b");
    assert_eq!(code("code = a\r\ncode = b\r\nimage = x\r\n"), "b");
    assert_eq!(image("image = a\nimage = b\ncode = c"), Some(b"b".to_vec()));
}

#[test]
fn text_is_read_in_order() {
    let config = parse_config("image = /a\ncode = x\nimage = ~/b\ncode = y", HOME);
    assert_eq!(config.code, "y");
    assert_eq!(config.image, Some(b"/home/me/b".to_vec()));
}

#[test]
fn non_ascii_code() {
    assert_eq!(code("code = \u{e9}t\u{e9} \u{1f511}"), "\u{e9}t\u{e9} \u{1f511}");
}

#[test]
fn tilde_is_expanded() {
    assert_eq!(expand_tilde("~/a/b", HOME), b"/home/me/a/b".to_vec());
    assert_eq!(expand_tilde("~/a", Some(b"/home/me/")), b"/home/me/a".to_vec());
    assert_eq!(expand_tilde("~/", HOME), b"/home/me/".to_vec());
    assert_eq!(expand_tilde("~//etc/x", HOME), b"/etc/x".to_vec());
    assert_eq!(expand_tilde("~/a", Some(b"")), b"a".to_vec());
    assert_eq!(expand_tilde("~/\u{e9}", Some(&[0xff])), vec![0xff, 0x2f, 0xc3, 0xa9]);
}

#[test]
fn other_paths_stand() {
    for path in ["~", "~me/a", "/a/~/b", "a", "", " ~/a", "\u{e9}"] {
        assert_eq!(expand_tilde(path, HOME), path.as_bytes().to_vec());
    }
    assert_eq!(expand_tilde("~/a", None), b"~/a".to_vec());
}

#[test]
fn joining_is_that_of_the_system() {
    for base in ["", "/", "/home", "/home/", "a", "a//"] {
        for rest in ["", "x", "/x", "x/y", "./x"] {
            let expected = std::path::PathBuf::from(base).join(rest);
            assert_eq!(
                String::from_utf8(join(base.as_bytes(), rest.as_bytes())).unwrap(),
                expected.to_str().unwrap()
            );
        }
    }
}

#[test]
fn rc_file_lies_at_home() {
    assert_eq!(rc_path(b"/home/me"), b"/home/me/.lockerrc".to_vec());
    assert_eq!(rc_path(b"/"), b"/.lockerrc".to_vec());
    assert_eq!(rc_path(b""), b".lockerrc".to_vec());
}

#[test]
fn unreadable_file_or_missing_home_gives_the_defaults() {
    for (home, text) in [(None, Some("code = x")), (HOME, None), (None, None)] {
        let config = load_config(home, text);
        assert_eq!(config.code, "unlock");
        assert_eq!(config.image, None);
    }
    assert_eq!(load_config(HOME, Some("code = x")).code, "x");
}

#[test]
fn code_is_never_empty() {
    for text in ["code =", "code = \"\"", "code = a\ncode = ''", "code = '\"'"] {
        assert!(!code(text).is_empty());
    }
}

#[test]
fn white_space_is_the_unicode_property() {
    for n in 0..=0x10ffffu32 {
        if let Some(c) = char::from_u32(n) {
            let listed = matches!(
                n,
                0x9..=0xd
                    | 0x20
                    | 0x85
                    | 0xa0
                    | 0x1680
                    | 0x2000..=0x200a
                    | 0x2028
                    | 0x2029
                    | 0x202f
                    | 0x205f
                    | 0x3000
            );
            assert_eq!(Margin::Space.includes(c), listed, "{n:x}");
        }
    }
    assert!(Margin::Mark('"').includes('"'));
    assert!(!Margin::Mark('"').includes(' '));
}
