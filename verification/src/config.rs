//! The configuration file `~/.lockerrc`: what a line of it says, and what all
//! lines together settle.
use vstd::prelude::*;
use vstd::slice::slice_to_vec;
use vstd::utf8::{
    char_is_scalar, char_u32_cast, encode_scalar, encode_utf8, encode_utf8_first_scalar,
};

use crate::text::{
    all_in, ascii_lower, find, find_char, find_gives_the_first, find_is_first, is_bare, is_space, lower,
    spells, strip, strip_bounds, strip_leaves_what_is_bare,
    stripping_takes_off_one_character, to_chars, trim, trimming_adds_nothing,
    trimming_keeps_the_first_character, trimming_takes_off_white_space, Margin,
};

verus! {

/// The unlock code where the configuration names none.
pub const DEFAULT_CODE: &'static str = "unlock";

/// What the configuration settles.
pub struct Config {
    /// The unlock code.
    pub code: String,
    /// The path of the background image, as the bytes the system knows it by.
    pub image: Option<Vec<u8>>,
}

/// A `Config` as a mathematical value.
pub ghost struct ConfigView {
    pub code: Seq<char>,
    pub image: Option<Seq<u8>>,
}

impl View for Config {
    type V = ConfigView;

    open spec fn view(&self) -> ConfigView {
        ConfigView {
            code: self.code@,
            image: match self.image {
                Some(path) => Some(path@),
                None => None,
            },
        }
    }
}

/// The home directory as a mathematical value.
pub open spec fn home_view(home: Option<&[u8]>) -> Option<Seq<u8>> {
    match home {
        Some(dir) => Some(dir@),
        None => None,
    }
}

/// The path `rest` as seen from the directory `base`: an absolute `rest` stands
/// for itself, any other follows `base` behind one slash.
pub open spec fn joined(base: Seq<u8>, rest: Seq<u8>) -> Seq<u8> {
    if rest.len() > 0 && rest[0] == 0x2f {
        rest
    } else if base.len() > 0 && base.last() != 0x2f {
        base.push(0x2f) + rest
    } else {
        base + rest
    }
}

/// Joins a path to a directory.
pub fn join(base: &[u8], rest: &[u8]) -> (path: Vec<u8>)
    ensures
        path@ == joined(base@, rest@),
{
    if rest.len() > 0 && rest[0] == 0x2f {
        return slice_to_vec(rest);
    }
    let mut path = slice_to_vec(base);
    if base.len() > 0 && base[base.len() - 1] != 0x2f {
        path.push(0x2f);
    }
    let ghost head = path@;
    let mut i: usize = 0;
    while i < rest.len()
        invariant
            i <= rest@.len(),
            path@ == head + rest@.take(i as int),
        decreases rest@.len() - i,
    {
        path.push(rest[i]);
        i = i + 1;
    }
    assert(rest@.take(i as int) =~= rest@);
    path
}

/// A path that starts with `~/` names a place under the home directory, where
/// there is one; any other stands as it is.
pub open spec fn expanded(path: Seq<char>, home: Option<Seq<u8>>) -> Seq<u8> {
    match home {
        Some(dir) if path.len() >= 2 && path[0] == '~' && path[1] == '/' => joined(
            dir,
            encode_utf8(path.skip(2)),
        ),
        _ => encode_utf8(path),
    }
}

/// Replaces a leading `~/` by the home directory.
pub fn expand_tilde(path: &str, home: Option<&[u8]>) -> (full: Vec<u8>)
    ensures
        full@ == expanded(path@, home_view(home)),
{
    let n = path.unicode_len();
    if n >= 2 && path.get_char(0) == '~' && path.get_char(1) == '/' {
        if let Some(dir) = home {
            let rest = path.substring_char(2, n);
            assert(rest@ =~= path@.skip(2));
            return join(dir, rest.as_bytes());
        }
    }
    slice_to_vec(path.as_bytes())
}

/// Where the configuration file lies.
pub open spec fn rc_location(home: Seq<u8>) -> Seq<u8> {
    joined(home, encode_utf8(".lockerrc"@))
}

/// The path of the configuration file under the home directory.
pub fn rc_path(home: &[u8]) -> (path: Vec<u8>)
    ensures
        path@ == rc_location(home@),
{
    join(home, ".lockerrc".as_bytes())
}

/// What one line of the configuration settles.
pub enum Setting {
    Code(String),
    Image(String),
}

/// A `Setting` as a mathematical value.
pub ghost enum SettingView {
    Code(Seq<char>),
    Image(Seq<char>),
}

impl View for Setting {
    type V = SettingView;

    open spec fn view(&self) -> SettingView {
        match self {
            Setting::Code(value) => SettingView::Code(value@),
            Setting::Image(value) => SettingView::Image(value@),
        }
    }
}

/// A line without the space around it says something where it is neither empty
/// nor a comment and holds an equals sign.
pub open spec fn is_entry(line: Seq<char>) -> bool {
    let entry = trim(line);
    entry.len() > 0 && entry[0] != '#' && find(entry, '=') < entry.len()
}

/// The key of an entry: what precedes the first equals sign, in lower case.
pub open spec fn entry_key(line: Seq<char>) -> Seq<char> {
    let entry = trim(line);
    lower(trim(entry.take(find(entry, '='))))
}

/// The value of an entry: what follows the first equals sign, without the space
/// around it, the double quotes around that and the single quotes around that.
pub open spec fn entry_value(line: Seq<char>) -> Seq<char> {
    let entry = trim(line);
    let value = trim(entry.skip(find(entry, '=') + 1));
    strip(strip(value, Margin::Mark('"')), Margin::Mark('\''))
}

/// What a line settles: nothing where it is no entry, its value is empty, or its
/// key is neither `code` nor `image`.
pub open spec fn setting(line: Seq<char>) -> Option<SettingView> {
    if !is_entry(line) || entry_value(line).len() == 0 {
        None
    } else if entry_key(line) == "code"@ {
        Some(SettingView::Code(entry_value(line)))
    } else if entry_key(line) == "image"@ {
        Some(SettingView::Image(entry_value(line)))
    } else {
        None
    }
}

impl ConfigView {
    /// What is settled before any line is read.
    pub open spec fn initial() -> ConfigView {
        ConfigView { code: DEFAULT_CODE@, image: None }
    }

    /// What is settled once `line` is read too.
    pub open spec fn after_line(self, line: Seq<char>, home: Option<Seq<u8>>) -> ConfigView {
        match setting(line) {
            Some(SettingView::Code(value)) => ConfigView { code: value, image: self.image },
            Some(SettingView::Image(value)) => ConfigView {
                code: self.code,
                image: Some(expanded(value, home)),
            },
            None => self,
        }
    }

    /// What is settled once every line of `text` is read too, in turn.
    pub open spec fn after_text(self, text: Seq<char>, home: Option<Seq<u8>>) -> ConfigView
        decreases text.len(),
    {
        let n = find(text, '\n');
        if n < text.len() {
            proof {
                find_is_first(text, '\n');
            }
            self.after_line(text.take(n), home).after_text(text.skip(n + 1), home)
        } else {
            self.after_line(text, home)
        }
    }
}

/// Reads the line of `text` that lies in `lo..hi`.
fn read_line(text: &str, chars: &Vec<char>, lo: usize, hi: usize) -> (found: Option<Setting>)
    requires
        chars@ == text@,
        lo <= hi <= chars@.len(),
    ensures
        match found {
            Some(value) => Some(value@),
            None => None,
        } == setting(chars@.subrange(lo as int, hi as int)),
{
    let ghost line = chars@.subrange(lo as int, hi as int);
    let (from, to) = strip_bounds(chars, lo, hi, Margin::Space);
    let ghost entry = trim(line);
    assert(entry == chars@.subrange(from as int, to as int));
    if from == to || chars[from] == '#' {
        return None;
    }
    let eq = find_char(chars, from, to, '=');
    if eq == to {
        return None;
    }
    proof {
        assert(entry.take(eq - from) =~= chars@.subrange(from as int, eq as int));
        assert(entry.skip(eq - from + 1) =~= chars@.subrange(eq + 1, to as int));
    }
    let (b0, e0) = strip_bounds(chars, eq + 1, to, Margin::Space);
    let (b1, e1) = strip_bounds(chars, b0, e0, Margin::Mark('"'));
    let (b, e) = strip_bounds(chars, b1, e1, Margin::Mark('\''));
    if b == e {
        return None;
    }
    let (k0, k1) = strip_bounds(chars, from, eq, Margin::Space);
    if spells(chars, k0, k1, "code") {
        Some(Setting::Code(text.substring_char(b, e).to_owned()))
    } else if spells(chars, k0, k1, "image") {
        Some(Setting::Image(text.substring_char(b, e).to_owned()))
    } else {
        None
    }
}

/// Reads the text of a configuration file.
pub fn parse_config(text: &str, home: Option<&[u8]>) -> (config: Config)
    ensures
        config@ == ConfigView::initial().after_text(text@, home_view(home)),
{
    let chars = to_chars(text);
    let n = chars.len();
    let mut config = Config { code: DEFAULT_CODE.to_owned(), image: None };
    let mut lo: usize = 0;
    let ghost settled = ConfigView::initial().after_text(text@, home_view(home));
    assert(chars@.skip(0) =~= text@);
    loop
        invariant
            chars@ == text@,
            n == chars@.len(),
            lo <= n,
            config@.after_text(chars@.skip(lo as int), home_view(home)) == settled,
        ensures
            config@ == settled,
        decreases n - lo,
    {
        let hi = find_char(&chars, lo, n, '\n');
        proof {
            let rest = chars@.skip(lo as int);
            assert(rest =~= chars@.subrange(lo as int, n as int));
            assert(rest.take(hi - lo) =~= chars@.subrange(lo as int, hi as int));
            if hi < n {
                assert(rest.skip(hi - lo + 1) =~= chars@.skip(hi + 1));
            }
        }
        match read_line(text, &chars, lo, hi) {
            Some(Setting::Code(value)) => {
                config.code = value;
            },
            Some(Setting::Image(value)) => {
                config.image = Some(expand_tilde(value.as_str(), home));
            },
            None => {},
        }
        if hi == n {
            break;
        }
        lo = hi + 1;
    }
    config
}

/// What is settled by a file that could be read, given the home directory.
pub open spec fn loaded(home: Option<Seq<u8>>, text: Option<Seq<char>>) -> ConfigView {
    match (home, text) {
        (Some(_), Some(lines)) => ConfigView::initial().after_text(lines, home),
        _ => ConfigView::initial(),
    }
}

/// The configuration: that of the file where there is a home directory and the
/// file in it could be read, the initial one otherwise.
pub fn load_config(home: Option<&[u8]>, text: Option<&str>) -> (config: Config)
    ensures
        config@ == loaded(
            home_view(home),
            match text {
                Some(lines) => Some(lines@),
                None => None,
            },
        ),
{
    match (home, text) {
        (Some(_), Some(lines)) => parse_config(lines, home),
        _ => Config { code: DEFAULT_CODE.to_owned(), image: None },
    }
}

/// A line says what its key and its value are, however much space lies around
/// either, in whatever case the key is written, and whether or not the value stands in
/// quotes, double ones outside single ones. In quotes a value may have space at its
/// ends.
pub proof fn entry_is_read(
    key: Seq<char>,
    value: Seq<char>,
    space: (Seq<char>, Seq<char>, Seq<char>, Seq<char>),
    double: (Seq<char>, Seq<char>),
    single: (Seq<char>, Seq<char>),
)
    requires
        is_bare(key, Margin::Space),
        key[0] != '#',
        forall|i: int| 0 <= i < key.len() ==> key[i] != '=',
        is_bare(single.0 + value + single.1, Margin::Mark('"')),
        is_bare(value, Margin::Mark('\'')),
        is_bare(double.0 + (single.0 + value + single.1) + double.1, Margin::Space),
        all_in(space.0, Margin::Space),
        all_in(space.1, Margin::Space),
        all_in(space.2, Margin::Space),
        all_in(space.3, Margin::Space),
        all_in(double.0, Margin::Mark('"')),
        all_in(double.1, Margin::Mark('"')),
        all_in(single.0, Margin::Mark('\'')),
        all_in(single.1, Margin::Mark('\'')),
    ensures
        ({
            let quoted = double.0 + (single.0 + value + single.1) + double.1;
            let line = space.0 + (key + space.1 + seq!['='] + space.2 + quoted) + space.3;
            is_entry(line) && entry_key(line) == lower(key) && entry_value(line) == value
        }),
{
    let inner = single.0 + value + single.1;
    let quoted = double.0 + inner + double.1;
    let entry = key + space.1 + seq!['='] + space.2 + quoted;
    let line = space.0 + entry + space.3;
    assert(entry[0] == key[0]);
    assert(entry.last() == quoted.last());
    strip_leaves_what_is_bare(space.0, entry, space.3, Margin::Space);
    let at = (key + space.1).len() as int;
    assert forall|i: int| 0 <= i < at implies entry[i] != '=' by {
        if i < key.len() {
            assert(entry[i] == key[i]);
        } else {
            assert(entry[i] == space.1[i - key.len()]);
        }
    }
    find_gives_the_first(entry, '=', at);
    let none = Seq::<char>::empty();
    assert(entry.take(at) =~= none + key + space.1);
    strip_leaves_what_is_bare(none, key, space.1, Margin::Space);
    assert(entry.skip(at + 1) =~= space.2 + quoted + none);
    strip_leaves_what_is_bare(space.2, quoted, none, Margin::Space);
    strip_leaves_what_is_bare(double.0, inner, double.1, Margin::Mark('"'));
    strip_leaves_what_is_bare(single.0, value, single.1, Margin::Mark('\''));
}

/// A text is read line by line: what comes first is settled first, and what comes
/// behind it is read as if it stood alone.
pub proof fn text_is_read_in_order(
    config: ConfigView,
    first: Seq<char>,
    rest: Seq<char>,
    home: Option<Seq<u8>>,
)
    ensures
        config.after_text(first + seq!['\n'] + rest, home) == config.after_text(
            first,
            home,
        ).after_text(rest, home),
    decreases first.len(),
{
    let text = first + seq!['\n'] + rest;
    let n = find(first, '\n');
    find_is_first(first, '\n');
    assert forall|i: int| 0 <= i < n implies text[i] != '\n' by {
        assert(text[i] == first[i]);
    }
    assert(text[n] == '\n');
    find_gives_the_first(text, '\n', n);
    assert(text.take(n) =~= first.take(n));
    if n < first.len() {
        let behind = first.skip(n + 1);
        assert(text.skip(n + 1) =~= behind + seq!['\n'] + rest);
        text_is_read_in_order(config.after_line(first.take(n), home), behind, rest, home);
    } else {
        assert(first.take(n) =~= first);
        assert(text.skip(n + 1) =~= rest);
    }
}

/// A line that settles nothing, such as a comment, an empty line or one with an
/// unknown key, can be left out.
pub proof fn idle_lines_do_not_matter(
    config: ConfigView,
    first: Seq<char>,
    line: Seq<char>,
    rest: Seq<char>,
    home: Option<Seq<u8>>,
)
    requires
        setting(line) is None,
        find(line, '\n') == line.len(),
    ensures
        config.after_text(first + seq!['\n'] + (line + seq!['\n'] + rest), home)
            == config.after_text(first + seq!['\n'] + rest, home),
{
    text_is_read_in_order(config, first, line + seq!['\n'] + rest, home);
    text_is_read_in_order(config.after_text(first, home), line, rest, home);
    text_is_read_in_order(config, first, rest, home);
}

/// The last line that settles a thing settles it for good, and leaves the other thing
/// as it was.
pub proof fn last_setting_counts(
    config: ConfigView,
    first: Seq<char>,
    line: Seq<char>,
    home: Option<Seq<u8>>,
)
    requires
        find(line, '\n') == line.len(),
    ensures
        ({
            let before = config.after_text(first, home);
            let after = config.after_text(first + seq!['\n'] + line, home);
            match setting(line) {
                Some(SettingView::Code(code)) => after.code == code && after.image == before.image,
                Some(SettingView::Image(path)) => after.code == before.code && after.image == Some(
                    expanded(path, home),
                ),
                None => after == before,
            }
        }),
{
    text_is_read_in_order(config, first, line, home);
}

/// No text makes the code empty.
pub proof fn code_is_never_empty(config: ConfigView, text: Seq<char>, home: Option<Seq<u8>>)
    requires
        config.code.len() > 0,
    ensures
        config.after_text(text, home).code.len() > 0,
    decreases text.len(),
{
    let n = find(text, '\n');
    find_is_first(text, '\n');
    if n < text.len() {
        code_is_never_empty(config.after_line(text.take(n), home), text.skip(n + 1), home);
    }
}

/// The configuration always has a code, the one to fall back to included.
pub proof fn loaded_code_is_never_empty(home: Option<Seq<u8>>, text: Option<Seq<char>>)
    ensures
        loaded(home, text).code.len() > 0,
{
    reveal_strlit("unlock");
    if let Some(lines) = text {
        code_is_never_empty(ConfigView::initial(), lines, home);
    }
}

/// Only a path that starts with `~/` depends on the home directory.
pub proof fn other_paths_stand(path: Seq<char>, home: Option<Seq<u8>>)
    requires
        path.len() < 2 || path[0] != '~' || path[1] != '/',
    ensures
        expanded(path, home) == encode_utf8(path),
{
}

/// What contracts say of a configuration, a setting and a home directory is said of what
/// they hold.
pub proof fn views_are_faithful(config: Config, value: Setting, home: Option<&[u8]>)
    ensures
        config@.code == config.code@,
        config.image matches Some(path) ==> config@.image == Some(path@),
        config.image is None ==> config@.image is None,
        value matches Setting::Code(code) ==> value@ == SettingView::Code(code@),
        value matches Setting::Image(path) ==> value@ == SettingView::Image(path@),
        home matches Some(dir) ==> home_view(home) == Some(dir@),
        home is None ==> home_view(home) is None,
{
}

/// A path joined to a directory follows it behind exactly one slash: one is put between
/// them where the directory has something and does not end with one. An absolute path
/// stands for itself, and one joined to nothing too.
pub proof fn joined_paths_are_parted_by_a_slash(base: Seq<u8>, rest: Seq<u8>)
    ensures
        rest.len() > 0 && rest[0] == 0x2f ==> joined(base, rest) == rest,
        base.len() == 0 ==> joined(base, rest) == rest,
        base.len() > 0 && base[base.len() - 1] != 0x2f && !(rest.len() > 0 && rest[0] == 0x2f)
            ==> joined(base, rest) == base + seq![0x2fu8] + rest,
        base.len() > 0 && base[base.len() - 1] == 0x2f && !(rest.len() > 0 && rest[0] == 0x2f)
            ==> joined(base, rest) == base + rest,
{
    assert(base.push(0x2f) =~= base + seq![0x2fu8]);
    if base.len() == 0 {
        assert(base + rest =~= rest);
    }
}

/// A path in UTF-8 starts with a slash exactly where it does in characters.
proof fn encoding_keeps_the_slash(path: Seq<char>)
    ensures
        encode_utf8(path).len() > 0 && encode_utf8(path)[0] == 0x2f <==> path.len() > 0 && path[0]
            == '/',
{
    if path.len() > 0 {
        let bytes = encode_utf8(path);
        encode_utf8_first_scalar(path);
        let (byte, scalar) = (bytes[0], path[0] as u32);
        char_is_scalar(path[0]);
        char_u32_cast(path[0], scalar);
        assert(scalar == 0x2f <==> path[0] == '/');
        if byte == 0x2f {
            assert(byte & 0x7f == 0x2f) by (bit_vector)
                requires
                    byte == 0x2f,
            ;
            assert(scalar == 0x2f);
        }
        if scalar == 0x2f {
            assert(scalar & 0x7f == 0x2f) by (bit_vector)
                requires
                    scalar == 0x2f,
            ;
            assert(encode_scalar(scalar)[0] == 0x2f);
            assert(byte == 0x2f);
        }
    }
}

/// A path under the home directory, `~/` and the rest, is the home directory, a slash
/// and the rest. Without a home directory it stands as it is.
pub proof fn tilde_stands_for_the_home_directory(home: Seq<u8>, rest: Seq<char>)
    requires
        home.len() > 0,
        home[home.len() - 1] != 0x2f,
        rest.len() > 0 ==> rest[0] != '/',
    ensures
        expanded("~/"@ + rest, Some(home)) == home + seq![0x2fu8] + encode_utf8(rest),
        expanded("~/"@ + rest, None) == encode_utf8("~/"@ + rest),
{
    reveal_strlit("~/");
    let path = "~/"@ + rest;
    assert(path.skip(2) =~= rest);
    encoding_keeps_the_slash(rest);
    joined_paths_are_parted_by_a_slash(home, encode_utf8(rest));
}

/// A path under a home directory that is the root or nothing, or ends with a slash, takes
/// no other; and where the rest is absolute it is all there is.
pub proof fn tilde_adds_no_second_slash(home: Seq<u8>, rest: Seq<char>)
    ensures
        rest.len() > 0 && rest[0] == '/' ==> expanded("~/"@ + rest, Some(home)) == encode_utf8(
            rest,
        ),
        home.len() == 0 ==> expanded("~/"@ + rest, Some(home)) == encode_utf8(rest),
        home.len() > 0 && home[home.len() - 1] == 0x2f && !(rest.len() > 0 && rest[0] == '/')
            ==> expanded("~/"@ + rest, Some(home)) == home + encode_utf8(rest),
{
    reveal_strlit("~/");
    let path = "~/"@ + rest;
    assert(path.skip(2) =~= rest);
    encoding_keeps_the_slash(rest);
    joined_paths_are_parted_by_a_slash(home, encode_utf8(rest));
}

/// The configuration file is `.lockerrc` in the home directory.
pub proof fn configuration_lies_at_home(home: Seq<u8>)
    ensures
        home.len() > 0 && home[home.len() - 1] != 0x2f ==> rc_location(home) == home + seq![0x2fu8]
            + encode_utf8(".lockerrc"@),
        home.len() == 0 || home[home.len() - 1] == 0x2f ==> rc_location(home) == home + encode_utf8(
            ".lockerrc"@,
        ),
{
    reveal_strlit(".lockerrc");
    encoding_keeps_the_slash(".lockerrc"@);
    joined_paths_are_parted_by_a_slash(home, encode_utf8(".lockerrc"@));
    if home.len() == 0 {
        assert(home + encode_utf8(".lockerrc"@) =~= encode_utf8(".lockerrc"@));
    }
}

/// A line as it can be written: a key and a value with an equals sign between them, space
/// around either, and quotes around the value, double ones outside single ones.
pub open spec fn written(
    key: Seq<char>,
    value: Seq<char>,
    space: (Seq<char>, Seq<char>, Seq<char>, Seq<char>),
    double: (Seq<char>, Seq<char>),
    single: (Seq<char>, Seq<char>),
) -> Seq<char> {
    let quoted = double.0 + (single.0 + value + single.1) + double.1;
    space.0 + (key + space.1 + seq!['='] + space.2 + quoted) + space.3
}

/// What can be written around a key and a value: white space, double quotes and single
/// quotes, each in its place.
pub open spec fn is_trimming(
    space: (Seq<char>, Seq<char>, Seq<char>, Seq<char>),
    double: (Seq<char>, Seq<char>),
    single: (Seq<char>, Seq<char>),
) -> bool {
    &&& forall|i: int| 0 <= i < space.0.len() ==> is_space(#[trigger] space.0[i])
    &&& forall|i: int| 0 <= i < space.1.len() ==> is_space(#[trigger] space.1[i])
    &&& forall|i: int| 0 <= i < space.2.len() ==> is_space(#[trigger] space.2[i])
    &&& forall|i: int| 0 <= i < space.3.len() ==> is_space(#[trigger] space.3[i])
    &&& forall|i: int| 0 <= i < double.0.len() ==> #[trigger] double.0[i] == '"'
    &&& forall|i: int| 0 <= i < double.1.len() ==> #[trigger] double.1[i] == '"'
    &&& forall|i: int| 0 <= i < single.0.len() ==> #[trigger] single.0[i] == '\''
    &&& forall|i: int| 0 <= i < single.1.len() ==> #[trigger] single.1[i] == '\''
}

/// A key: it has something, no white space at its ends, no equals sign in it, and does
/// not start a comment.
pub open spec fn is_key(key: Seq<char>) -> bool {
    &&& key.len() > 0
    &&& !is_space(key[0])
    &&& !is_space(key[key.len() - 1])
    &&& key[0] != '#'
    &&& forall|i: int| 0 <= i < key.len() ==> key[i] != '='
}

/// A value: it has something, and no single quote at its ends; nor a double one, but for
/// where it stands in single ones; nor white space, but for where it stands in quotes.
pub open spec fn is_value(
    value: Seq<char>,
    double: (Seq<char>, Seq<char>),
    single: (Seq<char>, Seq<char>),
) -> bool {
    &&& value.len() > 0
    &&& value[0] != '\'' && value[value.len() - 1] != '\''
    &&& single.0.len() == 0 ==> value[0] != '"'
    &&& single.1.len() == 0 ==> value[value.len() - 1] != '"'
    &&& double.0.len() == 0 && single.0.len() == 0 ==> !is_space(value[0])
    &&& double.1.len() == 0 && single.1.len() == 0 ==> !is_space(value[value.len() - 1])
}

/// The key spells `code`, each letter in either case.
pub open spec fn spells_code(key: Seq<char>) -> bool {
    &&& key.len() == 4
    &&& key[0] == 'c' || key[0] == 'C'
    &&& key[1] == 'o' || key[1] == 'O'
    &&& key[2] == 'd' || key[2] == 'D'
    &&& key[3] == 'e' || key[3] == 'E'
}

/// The key spells `image`, each letter in either case.
pub open spec fn spells_image(key: Seq<char>) -> bool {
    &&& key.len() == 5
    &&& key[0] == 'i' || key[0] == 'I'
    &&& key[1] == 'm' || key[1] == 'M'
    &&& key[2] == 'a' || key[2] == 'A'
    &&& key[3] == 'g' || key[3] == 'G'
    &&& key[4] == 'e' || key[4] == 'E'
}

proof fn lower_spells(key: Seq<char>)
    ensures
        lower(key) == "code"@ <==> spells_code(key),
        lower(key) == "image"@ <==> spells_image(key),
{
    reveal_strlit("code");
    reveal_strlit("image");
    let low = lower(key);
    assert(low.len() == key.len());
    if key.len() == 4 {
        lower_is(key[0], 'c');
        lower_is(key[1], 'o');
        lower_is(key[2], 'd');
        lower_is(key[3], 'e');
        assert(low =~= "code"@ <==> low[0] == 'c' && low[1] == 'o' && low[2] == 'd' && low[3]
            == 'e');
    }
    if key.len() == 5 {
        lower_is(key[0], 'i');
        lower_is(key[1], 'm');
        lower_is(key[2], 'a');
        lower_is(key[3], 'g');
        lower_is(key[4], 'e');
        assert(low =~= "image"@ <==> low[0] == 'i' && low[1] == 'm' && low[2] == 'a' && low[3]
            == 'g' && low[4] == 'e');
    }
}

proof fn lower_is(c: char, low: char)
    requires
        'a' <= low <= 'z',
    ensures
        ascii_lower(c) == low <==> c == low || c as u32 + 32 == low as u32,
{
}

/// A line settles the code where its key is `code`, and the image where it is `image`, in
/// whatever case either is written: to its value, without the white space and the quotes
/// around it. With any other key it settles nothing.
pub proof fn lines_settle_code_and_image(
    key: Seq<char>,
    value: Seq<char>,
    space: (Seq<char>, Seq<char>, Seq<char>, Seq<char>),
    double: (Seq<char>, Seq<char>),
    single: (Seq<char>, Seq<char>),
)
    requires
        is_trimming(space, double, single),
        is_key(key),
        is_value(value, double, single),
    ensures
        ({
            let line = written(key, value, space, double, single);
            &&& spells_code(key) ==> setting(line) == Some(SettingView::Code(value))
            &&& spells_image(key) ==> setting(line) == Some(SettingView::Image(value))
            &&& !spells_code(key) && !spells_image(key) ==> setting(line) is None
        }),
{
    let inner = single.0 + value + single.1;
    let quoted = double.0 + inner + double.1;
    assert(is_bare(inner, Margin::Mark('"'))) by {
        assert(inner[0] == if single.0.len() > 0 {
            single.0[0]
        } else {
            value[0]
        });
        assert(inner.last() == if single.1.len() > 0 {
            single.1.last()
        } else {
            value.last()
        });
    }
    assert(is_bare(quoted, Margin::Space)) by {
        assert(quoted[0] == if double.0.len() > 0 {
            double.0[0]
        } else if single.0.len() > 0 {
            single.0[0]
        } else {
            value[0]
        });
        assert(quoted.last() == if double.1.len() > 0 {
            double.1.last()
        } else if single.1.len() > 0 {
            single.1.last()
        } else {
            value.last()
        });
    }
    entry_is_read(key, value, space, double, single);
    lower_spells(key);
}

/// A line with nothing for a value, or nothing but quotes, settles nothing.
pub proof fn empty_values_settle_nothing(
    key: Seq<char>,
    space: (Seq<char>, Seq<char>, Seq<char>, Seq<char>),
    double: (Seq<char>, Seq<char>),
    single: (Seq<char>, Seq<char>),
)
    requires
        is_trimming(space, double, single),
        is_key(key),
    ensures
        setting(written(key, Seq::empty(), space, double, single)) is None,
{
    let none = Seq::<char>::empty();
    let inner = single.0 + none + single.1;
    let quoted = double.0 + inner + double.1;
    let line = written(key, none, space, double, single);
    let head = key + space.1 + seq!['='];
    let at = (key + space.1).len() as int;
    assert(inner =~= single.0 + single.1);
    assert forall|i: int| 0 <= i < inner.len() implies #[trigger] inner[i] == '\'' by {
        if i < single.0.len() {
            assert(inner[i] == single.0[i]);
        } else {
            assert(inner[i] == single.1[i - single.0.len()]);
        }
    }
    let entry = if quoted.len() > 0 {
        head + space.2 + quoted
    } else {
        head
    };
    assert(entry[0] == key[0]);
    if quoted.len() > 0 {
        assert(entry[entry.len() - 1] == quoted[quoted.len() - 1]);
        assert(quoted[quoted.len() - 1] == if double.1.len() > 0 {
            double.1[double.1.len() - 1]
        } else if inner.len() > 0 {
            inner[inner.len() - 1]
        } else {
            double.0[double.0.len() - 1]
        });
        assert(line =~= space.0 + entry + space.3);
        trimming_takes_off_white_space(space.0, entry, space.3);
    } else {
        let behind = space.2 + space.3;
        assert forall|i: int| 0 <= i < behind.len() implies is_space(#[trigger] behind[i]) by {
            if i < space.2.len() {
                assert(behind[i] == space.2[i]);
            } else {
                assert(behind[i] == space.3[i - space.2.len()]);
            }
        }
        assert(line =~= space.0 + entry + behind);
        trimming_takes_off_white_space(space.0, entry, behind);
    }
    assert(trim(line) == entry);
    assert forall|i: int| 0 <= i < at implies entry[i] != '=' by {
        if i < key.len() {
            assert(entry[i] == key[i]);
        } else {
            assert(entry[i] == space.1[i - key.len()]);
        }
    }
    assert(entry[at] == '=');
    find_gives_the_first(entry, '=', at);
    let value = entry.skip(at + 1);
    if quoted.len() > 0 {
        assert(value =~= space.2 + quoted + none);
        assert(quoted[0] == if double.0.len() > 0 {
            double.0[0]
        } else if inner.len() > 0 {
            inner[0]
        } else {
            double.1[0]
        });
        trimming_takes_off_white_space(space.2, quoted, none);
    } else {
        assert(value =~= none + none + none);
        trimming_takes_off_white_space(none, none, none);
        assert(quoted =~= none);
    }
    assert(trim(value) == quoted);
    stripping_takes_off_one_character('"', double.0, inner, double.1);
    assert(inner =~= single.0 + none + single.1);
    stripping_takes_off_one_character('\'', single.0, none, single.1);
}

/// A line whose equals sign nothing but white space precedes settles nothing.
pub proof fn lines_without_a_key_settle_nothing(space: Seq<char>, rest: Seq<char>)
    requires
        forall|i: int| 0 <= i < space.len() ==> is_space(#[trigger] space[i]),
    ensures
        setting(space + (seq!['='] + rest)) is None,
{
    let line = space + (seq!['='] + rest);
    let none = Seq::<char>::empty();
    trimming_keeps_the_first_character(space, seq!['='] + rest);
    find_gives_the_first(trim(line), '=', 0);
    assert(trim(line).take(0) =~= none + none + none);
    trimming_takes_off_white_space(none, none, none);
    lower_spells(none);
    assert(lower(none) =~= none);
}

/// A line of nothing but white space, a comment, and a line without an equals sign settle
/// nothing.
pub proof fn blank_lines_and_comments_settle_nothing(
    space: Seq<char>,
    comment: Seq<char>,
    line: Seq<char>,
)
    requires
        forall|i: int| 0 <= i < space.len() ==> is_space(#[trigger] space[i]),
        forall|i: int| 0 <= i < line.len() ==> line[i] != '=',
    ensures
        setting(space) is None,
        setting(space + (seq!['#'] + comment)) is None,
        setting(line) is None,
{
    let none = Seq::<char>::empty();
    assert(space =~= space + none + none);
    trimming_takes_off_white_space(space, none, none);
    trimming_keeps_the_first_character(space, seq!['#'] + comment);
    trimming_adds_nothing(line, '=');
    find_is_first(trim(line), '=');
}

/// Where there is no home directory, or no file in it that could be read, the code is
/// `unlock` and there is no image. So it is before any line is read.
pub proof fn nothing_loaded_is_the_default(home: Option<Seq<u8>>, text: Option<Seq<char>>)
    requires
        home is None || text is None,
    ensures
        loaded(home, text).code == "unlock"@,
        loaded(home, text).image is None,
        ConfigView::initial().code == "unlock"@,
        ConfigView::initial().image is None,
{
}

/// A single line settles what it says and nothing else.
pub proof fn one_line_settles_one_thing(
    config: ConfigView,
    line: Seq<char>,
    home: Option<Seq<u8>>,
)
    requires
        forall|i: int| 0 <= i < line.len() ==> line[i] != '\n',
    ensures
        ({
            let after = config.after_text(line, home);
            match setting(line) {
                Some(SettingView::Code(code)) => after.code == code && after.image == config.image,
                Some(SettingView::Image(path)) => after.code == config.code && after.image == Some(
                    expanded(path, home),
                ),
                None => after == config,
            }
        }),
{
    find_is_first(line, '\n');
}

/// What is loaded of a file is what its lines settle in turn, over the default, the paths
/// in it seen from the home directory: the first line over the default, and each further
/// one over what those before it settled.
pub proof fn files_are_loaded_line_by_line(home: Seq<u8>, first: Seq<char>, line: Seq<char>)
    requires
        forall|i: int| 0 <= i < line.len() ==> line[i] != '\n',
    ensures
        ({
            let alone = loaded(Some(home), Some(line));
            let before = loaded(Some(home), Some(first));
            let after = loaded(Some(home), Some(first + seq!['\n'] + line));
            match setting(line) {
                Some(SettingView::Code(code)) => {
                    &&& alone.code == code && alone.image is None
                    &&& after.code == code && after.image == before.image
                },
                Some(SettingView::Image(path)) => {
                    &&& alone.code == "unlock"@
                    &&& alone.image == Some(expanded(path, Some(home)))
                    &&& after.code == before.code
                    &&& after.image == Some(expanded(path, Some(home)))
                },
                None => {
                    &&& alone.code == "unlock"@ && alone.image is None
                    &&& after == before
                },
            }
        }),
{
    find_is_first(line, '\n');
    one_line_settles_one_thing(ConfigView::initial(), line, Some(home));
    last_setting_counts(ConfigView::initial(), first, line, Some(home));
}

/// A last line that names an image under `~/` has that image loaded from under the home
/// directory that was given: its path is the home directory, a slash and the rest. The
/// code stays as the lines before settled it.
pub proof fn image_is_loaded_from_home(
    home: Seq<u8>,
    first: Seq<char>,
    key: Seq<char>,
    rest: Seq<char>,
    space: (Seq<char>, Seq<char>, Seq<char>, Seq<char>),
    double: (Seq<char>, Seq<char>),
    single: (Seq<char>, Seq<char>),
)
    requires
        home.len() > 0,
        home[home.len() - 1] != 0x2f,
        rest.len() > 0 ==> rest[0] != '/',
        is_trimming(space, double, single),
        is_key(key),
        spells_image(key),
        is_value("~/"@ + rest, double, single),
        forall|i: int|
            0 <= i < written(key, "~/"@ + rest, space, double, single).len() ==> written(
                key,
                "~/"@ + rest,
                space,
                double,
                single,
            )[i] != '\n',
    ensures
        ({
            let line = written(key, "~/"@ + rest, space, double, single);
            let path = home + seq![0x2fu8] + encode_utf8(rest);
            let after = loaded(Some(home), Some(first + seq!['\n'] + line));
            &&& loaded(Some(home), Some(line)).image == Some(path)
            &&& loaded(Some(home), Some(line)).code == "unlock"@
            &&& after.image == Some(path)
            &&& after.code == loaded(Some(home), Some(first)).code
        }),
{
    lines_settle_code_and_image(key, "~/"@ + rest, space, double, single);
    let line = written(key, "~/"@ + rest, space, double, single);
    files_are_loaded_line_by_line(home, first, line);
    tilde_stands_for_the_home_directory(home, rest);
}

/// A last line that names a code has that code loaded. The image stays as the lines before
/// settled it.
pub proof fn code_is_loaded(
    home: Seq<u8>,
    first: Seq<char>,
    key: Seq<char>,
    code: Seq<char>,
    space: (Seq<char>, Seq<char>, Seq<char>, Seq<char>),
    double: (Seq<char>, Seq<char>),
    single: (Seq<char>, Seq<char>),
)
    requires
        is_trimming(space, double, single),
        is_key(key),
        spells_code(key),
        is_value(code, double, single),
        forall|i: int|
            0 <= i < written(key, code, space, double, single).len() ==> written(
                key,
                code,
                space,
                double,
                single,
            )[i] != '\n',
    ensures
        ({
            let line = written(key, code, space, double, single);
            let after = loaded(Some(home), Some(first + seq!['\n'] + line));
            &&& loaded(Some(home), Some(line)).code == code
            &&& loaded(Some(home), Some(line)).image is None
            &&& after.code == code
            &&& after.image == loaded(Some(home), Some(first)).image
        }),
{
    lines_settle_code_and_image(key, code, space, double, single);
    let line = written(key, code, space, double, single);
    files_are_loaded_line_by_line(home, first, line);
}

} // verus!
