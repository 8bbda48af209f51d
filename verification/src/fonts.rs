//! The search for a font to write the clock with.
use vstd::prelude::*;
use vstd::utf8::{decode_utf8, valid_utf8};

use crate::text::{
    is_space, strip_bounds, to_chars, trim, trimming_takes_off_white_space, Margin,
};

verus! {

/// What `String::from_utf8_lossy` makes of some bytes.
pub uninterp spec fn lossy(bytes: Seq<u8>) -> Seq<char>;

/// `String::from_utf8_lossy` of std. Trusted: what it returns depends on the bytes
/// alone, and is what they encode where they are UTF-8.
#[verifier::external_body]
fn decode_lossy(bytes: &Vec<u8>) -> (text: String)
    ensures
        text@ == lossy(bytes@),
        valid_utf8(bytes@) ==> text@ == decode_utf8(bytes@),
{
    String::from_utf8_lossy(bytes).into_owned()
}

/// What the program `fc-match` gave back.
pub struct FcMatch {
    /// It ended well.
    pub success: bool,
    /// What it wrote.
    pub stdout: Vec<u8>,
}

/// The fonts tried on any system, best first.
pub open spec fn known_fonts() -> Seq<Seq<char>> {
    seq![
        "/usr/share/fonts/TTF/DejaVuSans-Bold.ttf"@,
        "/usr/share/fonts/TTF/DejaVuSans.ttf"@,
        "/usr/share/fonts/liberation/LiberationSans-Bold.ttf"@,
        "/usr/share/fonts/noto/NotoSans-Bold.ttf"@,
        "/usr/share/fonts/noto/NotoSans-Regular.ttf"@,
        "/usr/share/fonts/gnu-free/FreeSansBold.otf"@,
    ]
}

/// The fonts to try: first the one that the system names, where it names one.
pub open spec fn candidates(named: Option<Seq<char>>) -> Seq<Seq<char>> {
    match named {
        Some(text) if trim(text).len() > 0 => seq![trim(text)] + known_fonts(),
        _ => known_fonts(),
    }
}

/// The paths as mathematical values.
pub open spec fn paths_view(paths: Seq<String>) -> Seq<Seq<char>> {
    paths.map_values(|path: String| path@)
}

/// The fonts to try, best first, given what the system wrote to name one.
pub fn font_candidates(named: Option<&str>) -> (paths: Vec<String>)
    ensures
        paths_view(paths@) == candidates(
            match named {
                Some(text) => Some(text@),
                None => None,
            },
        ),
{
    let mut paths: Vec<String> = Vec::new();
    if let Some(text) = named {
        let chars = to_chars(text);
        let (from, to) = strip_bounds(&chars, 0, chars.len(), Margin::Space);
        assert(chars@.subrange(0, chars@.len() as int) =~= text@);
        if from < to {
            paths.push(text.substring_char(from, to).to_owned());
        }
    }
    let ghost head = paths_view(paths@);
    paths.push("/usr/share/fonts/TTF/DejaVuSans-Bold.ttf".to_owned());
    paths.push("/usr/share/fonts/TTF/DejaVuSans.ttf".to_owned());
    paths.push("/usr/share/fonts/liberation/LiberationSans-Bold.ttf".to_owned());
    paths.push("/usr/share/fonts/noto/NotoSans-Bold.ttf".to_owned());
    paths.push("/usr/share/fonts/noto/NotoSans-Regular.ttf".to_owned());
    paths.push("/usr/share/fonts/gnu-free/FreeSansBold.otf".to_owned());
    assert(paths_view(paths@) =~= head + known_fonts());
    paths
}

/// A search through the fonts to try, one after the other.
pub struct FontSearch {
    pub paths: Vec<String>,
    /// How many were tried.
    pub tried: usize,
    /// The last of those could be used, and the search is over.
    pub found: bool,
}

impl FontSearch {
    pub open spec fn wf(&self) -> bool {
        &&& self.tried <= self.paths@.len()
        &&& self.found ==> self.tried > 0
    }

    /// The path to try next.
    pub open spec fn upcoming(&self) -> Option<Seq<char>> {
        if !self.found && self.tried < self.paths@.len() {
            Some(self.paths@[self.tried as int]@)
        } else {
            None
        }
    }

    /// The search once the font at the path to try next was found usable or not.
    pub open spec fn reported(self, usable: bool) -> FontSearch {
        FontSearch { paths: self.paths, tried: (self.tried + 1) as usize, found: usable }
    }

    /// The search once every font was tried in turn that it asks for, `usable` telling
    /// of each path whether the font at it can be used.
    pub open spec fn finished(self, usable: Seq<bool>) -> FontSearch
        decreases self.paths@.len() - self.tried,
    {
        if self.upcoming() is Some && self.paths@.len() <= usize::MAX {
            self.reported(usable[self.tried as int]).finished(usable)
        } else {
            self
        }
    }

    /// The search that tries the font that `fc-match` found first, where it was run,
    /// ended well and named one.
    pub fn new(fc_match: Option<&FcMatch>) -> (search: FontSearch)
        ensures
            search.wf(),
            search.tried == 0,
            !search.found,
            paths_view(search.paths@) == candidates(
                match fc_match {
                    Some(run) if run.success => Some(lossy(run.stdout@)),
                    _ => None,
                },
            ),
            fc_match matches Some(run) ==> run.success && valid_utf8(run.stdout@) ==> paths_view(
                search.paths@,
            ) == candidates(Some(decode_utf8(run.stdout@))),
    {
        let paths = match fc_match {
            Some(run) => if run.success {
                let text = decode_lossy(&run.stdout);
                font_candidates(Some(text.as_str()))
            } else {
                font_candidates(None)
            },
            None => font_candidates(None),
        };
        FontSearch { paths, tried: 0, found: false }
    }

    /// The path to try next, as long as no font was found and one is left.
    pub fn next_path(&self) -> (path: Option<&String>)
        requires
            self.wf(),
        ensures
            match path {
                Some(p) => Some(p@),
                None => None,
            } == self.upcoming(),
    {
        if !self.found && self.tried < self.paths.len() {
            Some(&self.paths[self.tried])
        } else {
            None
        }
    }

    /// Takes note of whether the font at the path to try next could be used.
    pub fn report(&mut self, usable: bool)
        requires
            old(self).wf(),
            old(self).upcoming() is Some,
        ensures
            final(self).wf(),
            *final(self) == old(self).reported(usable),
    {
        assert(self.tried < self.paths.len());
        self.tried = self.tried + 1;
        self.found = usable;
    }
}

/// The search ends at the first font that can be used, and finds none only where none
/// can be.
pub proof fn first_usable_is_found(search: FontSearch, usable: Seq<bool>)
    requires
        search.wf(),
        !search.found,
        search.paths@.len() <= usize::MAX,
        usable.len() == search.paths@.len(),
    ensures
        ({
            let end = search.finished(usable);
            &&& end.paths == search.paths
            &&& end.upcoming() is None
            &&& search.tried <= end.tried <= usable.len()
            &&& forall|i: int| search.tried <= i < end.tried - 1 ==> !usable[i]
            &&& if end.found {
                end.tried > search.tried && usable[end.tried - 1]
            } else {
                forall|i: int| search.tried <= i < usable.len() ==> !usable[i]
            }
        }),
    decreases usable.len() - search.tried,
{
    if search.tried < search.paths@.len() {
        let next = search.reported(usable[search.tried as int]);
        if usable[search.tried as int] {
            assert(next.upcoming() is None);
            assert(next.finished(usable) == next);
        } else {
            first_usable_is_found(next, usable);
        }
    }
}

/// The font that the system names is tried first, without the white space around its
/// path; where it names none, or nothing but white space, only the known ones are
/// tried, in their order.
pub proof fn named_font_is_tried_first(before: Seq<char>, name: Seq<char>, after: Seq<char>)
    requires
        forall|i: int| 0 <= i < before.len() ==> is_space(#[trigger] before[i]),
        forall|i: int| 0 <= i < after.len() ==> is_space(#[trigger] after[i]),
        name.len() > 0 ==> !is_space(name[0]) && !is_space(name[name.len() - 1]),
    ensures
        ({
            let known = seq![
                "/usr/share/fonts/TTF/DejaVuSans-Bold.ttf"@,
                "/usr/share/fonts/TTF/DejaVuSans.ttf"@,
                "/usr/share/fonts/liberation/LiberationSans-Bold.ttf"@,
                "/usr/share/fonts/noto/NotoSans-Bold.ttf"@,
                "/usr/share/fonts/noto/NotoSans-Regular.ttf"@,
                "/usr/share/fonts/gnu-free/FreeSansBold.otf"@,
            ];
            &&& candidates(None) == known
            &&& name.len() == 0 ==> candidates(Some(before + name + after)) == known
            &&& name.len() > 0 ==> candidates(Some(before + name + after)) == seq![name] + known
        }),
{
    trimming_takes_off_white_space(before, name, after);
}

/// The path to try next is the one behind all that were tried, until a font is found or
/// none is left; what is reported of it counts it as tried, and ends the search exactly
/// where its font can be used.
pub proof fn fonts_are_tried_in_turn(search: FontSearch, usable: bool)
    ensures
        search.found || search.tried >= search.paths@.len() ==> search.upcoming() is None,
        !search.found && search.tried < search.paths@.len() ==> search.upcoming() == Some(
            search.paths@[search.tried as int]@,
        ),
        search.tried < usize::MAX ==> search.reported(usable).tried == search.tried + 1,
        search.reported(usable).found == usable,
        search.reported(usable).paths == search.paths,
{
}

/// The paths are looked at one by one.
pub proof fn paths_are_seen_one_by_one(paths: Seq<String>)
    ensures
        paths_view(paths).len() == paths.len(),
        forall|i: int| 0 <= i < paths.len() ==> #[trigger] paths_view(paths)[i] == paths[i]@,
{
}

} // verus!
