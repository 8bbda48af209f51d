//! Characters and strings: the two character classes that the lock screen
//! tells apart, trimming, and ASCII-insensitive comparison.
use vstd::prelude::*;

verus! {

/// A character with the Unicode property `White_Space`.
pub open spec fn is_space(c: char) -> bool {
    let n = c as u32;
    ||| 0x9 <= n <= 0xd
    ||| n == 0x20
    ||| n == 0x85
    ||| n == 0xa0
    ||| n == 0x1680
    ||| 0x2000 <= n <= 0x200a
    ||| n == 0x2028
    ||| n == 0x2029
    ||| n == 0x202f
    ||| n == 0x205f
    ||| n == 0x3000
}

/// A character of the Unicode general category `Cc`: a control code.
pub open spec fn is_control_code(c: char) -> bool {
    let n = c as u32;
    n <= 0x1f || 0x7f <= n <= 0x9f
}

/// `char::is_whitespace` of std: true exactly of the characters that the Unicode
/// Character Database lists under `White_Space`.
pub assume_specification[ char::is_whitespace ](c: char) -> (yes: bool)
    ensures
        yes == is_space(c),
;

/// `char::is_control` of std: true exactly of the control codes, whose set is
/// fixed in Unicode for good.
pub assume_specification[ char::is_control ](c: char) -> (yes: bool)
    ensures
        yes == is_control_code(c),
;

/// `String::push` of std: appends one character at the end.
pub assume_specification[ String::push ](s: &mut String, c: char)
    ensures
        final(s)@ == old(s)@.push(c),
;

/// What is stripped from the ends of a string.
#[derive(Clone, Copy)]
pub enum Margin {
    /// White space.
    Space,
    /// One character, as often as it occurs.
    Mark(char),
}

impl Margin {
    pub open spec fn covers(self, c: char) -> bool {
        match self {
            Margin::Space => is_space(c),
            Margin::Mark(m) => c == m,
        }
    }

    /// Tells whether `c` is stripped.
    pub fn includes(self, c: char) -> (yes: bool)
        ensures
            yes == self.covers(c),
    {
        match self {
            Margin::Space => c.is_whitespace(),
            Margin::Mark(m) => c == m,
        }
    }
}

/// `s` without the characters of `margin` that it starts with.
pub open spec fn strip_front(s: Seq<char>, margin: Margin) -> Seq<char>
    decreases s.len(),
{
    if s.len() > 0 && margin.covers(s[0]) {
        strip_front(s.drop_first(), margin)
    } else {
        s
    }
}

/// `s` without the characters of `margin` that it ends with.
pub open spec fn strip_back(s: Seq<char>, margin: Margin) -> Seq<char>
    decreases s.len(),
{
    if s.len() > 0 && margin.covers(s.last()) {
        strip_back(s.drop_last(), margin)
    } else {
        s
    }
}

/// `s` without the characters of `margin` at either end.
pub open spec fn strip(s: Seq<char>, margin: Margin) -> Seq<char> {
    strip_back(strip_front(s, margin), margin)
}

/// `s` without the white space at either end.
pub open spec fn trim(s: Seq<char>) -> Seq<char> {
    strip(s, Margin::Space)
}

/// The bounds within `lo..hi` that are left once `margin` is stripped.
pub fn strip_bounds(chars: &Vec<char>, lo: usize, hi: usize, margin: Margin) -> (bounds: (
    usize,
    usize,
))
    requires
        lo <= hi <= chars@.len(),
    ensures
        lo <= bounds.0 <= bounds.1 <= hi,
        chars@.subrange(bounds.0 as int, bounds.1 as int) == strip(
            chars@.subrange(lo as int, hi as int),
            margin,
        ),
{
    let ghost whole = chars@.subrange(lo as int, hi as int);
    let mut from: usize = lo;
    while from < hi && margin.includes(chars[from])
        invariant
            lo <= from <= hi <= chars@.len(),
            strip_front(chars@.subrange(from as int, hi as int), margin) == strip_front(
                whole,
                margin,
            ),
        decreases hi - from,
    {
        proof {
            let rest = chars@.subrange(from as int, hi as int);
            assert(rest.drop_first() =~= chars@.subrange(from + 1, hi as int));
        }
        from = from + 1;
    }
    let ghost front = chars@.subrange(from as int, hi as int);
    let mut to: usize = hi;
    while from < to && margin.includes(chars[to - 1])
        invariant
            from <= to <= hi <= chars@.len(),
            strip_back(chars@.subrange(from as int, to as int), margin) == strip_back(
                front,
                margin,
            ),
        decreases to - from,
    {
        proof {
            let rest = chars@.subrange(from as int, to as int);
            assert(rest.drop_last() =~= chars@.subrange(from as int, to - 1));
        }
        to = to - 1;
    }
    (from, to)
}

/// The characters of `s`, one by one.
pub fn to_chars(s: &str) -> (chars: Vec<char>)
    ensures
        chars@ == s@,
{
    let mut chars: Vec<char> = Vec::new();
    for c in it: s.chars()
        invariant
            it.seq() == s@,
            chars@ == s@.take(it.index() as int),
    {
        chars.push(c);
    }
    assert(s@.take(s@.len() as int) =~= s@);
    chars
}

/// The place of the first `c` in `s`; the length of `s` where there is none.
pub open spec fn find(s: Seq<char>, c: char) -> int
    decreases s.len(),
{
    if s.len() == 0 || s[0] == c {
        0
    } else {
        1 + find(s.drop_first(), c)
    }
}

/// `find` is the least place that holds `c`.
pub proof fn find_is_first(s: Seq<char>, c: char)
    ensures
        0 <= find(s, c) <= s.len(),
        find(s, c) < s.len() ==> s[find(s, c)] == c,
        forall|i: int| 0 <= i < find(s, c) ==> s[i] != c,
    decreases s.len(),
{
    if s.len() > 0 && s[0] != c {
        let rest = s.drop_first();
        find_is_first(rest, c);
        assert forall|i: int| 0 <= i < find(s, c) implies s[i] != c by {
            if i > 0 {
                assert(s[i] == rest[i - 1]);
            }
        }
    }
}

/// The first place from `lo` on, short of `hi`, that holds `c`; `hi` where none does.
pub fn find_char(chars: &Vec<char>, lo: usize, hi: usize, c: char) -> (at: usize)
    requires
        lo <= hi <= chars@.len(),
    ensures
        lo <= at <= hi,
        at - lo == find(chars@.subrange(lo as int, hi as int), c),
{
    let ghost whole = chars@.subrange(lo as int, hi as int);
    let mut at: usize = lo;
    while at < hi && chars[at] != c
        invariant
            lo <= at <= hi <= chars@.len(),
            at - lo + find(chars@.subrange(at as int, hi as int), c) == find(whole, c),
        decreases hi - at,
    {
        proof {
            let rest = chars@.subrange(at as int, hi as int);
            assert(rest.drop_first() =~= chars@.subrange(at + 1, hi as int));
        }
        at = at + 1;
    }
    at
}

/// `c` with the letters `A` to `Z` in lower case.
pub open spec fn ascii_lower(c: char) -> char {
    if 'A' <= c <= 'Z' {
        (c as u32 + 32) as char
    } else {
        c
    }
}

/// `s` with the letters `A` to `Z` in lower case.
pub open spec fn lower(s: Seq<char>) -> Seq<char> {
    s.map_values(|c: char| ascii_lower(c))
}

/// Tells whether the characters in `lo..hi` spell `name`, once in lower case.
pub fn spells(chars: &Vec<char>, lo: usize, hi: usize, name: &str) -> (yes: bool)
    requires
        lo <= hi <= chars@.len(),
    ensures
        yes == (lower(chars@.subrange(lo as int, hi as int)) == name@),
{
    let ghost word = lower(chars@.subrange(lo as int, hi as int));
    let wanted = to_chars(name);
    if wanted.len() != hi - lo {
        return false;
    }
    let mut i: usize = 0;
    while i < wanted.len()
        invariant
            lo <= hi <= chars@.len(),
            wanted@ == name@,
            wanted@.len() == hi - lo,
            i <= wanted@.len(),
            word == lower(chars@.subrange(lo as int, hi as int)),
            forall|j: int| 0 <= j < i ==> word[j] == wanted@[j],
        decreases wanted@.len() - i,
    {
        let c = chars[lo + i];
        let n = wanted[i];
        let same = if 'A' <= c && c <= 'Z' {
            c as u32 + 32 == n as u32
        } else {
            c == n
        };
        proof {
            assert(word[i as int] == ascii_lower(c));
            vstd::utf8::char_is_scalar(n);
            vstd::utf8::char_u32_cast(n, n as u32);
        }
        if !same {
            return false;
        }
        i = i + 1;
    }
    assert(word =~= name@);
    true
}

/// Every character of `s` is one of `margin`.
pub open spec fn all_in(s: Seq<char>, margin: Margin) -> bool {
    forall|i: int| 0 <= i < s.len() ==> margin.covers(s[i])
}

/// `s` neither starts nor ends with a character of `margin`.
pub open spec fn is_bare(s: Seq<char>, margin: Margin) -> bool {
    s.len() > 0 && !margin.covers(s[0]) && !margin.covers(s.last())
}

proof fn strip_front_leaves(before: Seq<char>, s: Seq<char>, margin: Margin)
    requires
        all_in(before, margin),
        s.len() > 0,
        !margin.covers(s[0]),
    ensures
        strip_front(before + s, margin) == s,
    decreases before.len(),
{
    if before.len() > 0 {
        let rest = before.drop_first();
        assert((before + s).drop_first() =~= rest + s);
        assert(all_in(rest, margin)) by {
            assert forall|i: int| 0 <= i < rest.len() implies margin.covers(rest[i]) by {
                assert(rest[i] == before[i + 1]);
            }
        }
        assert((before + s)[0] == before[0]);
        strip_front_leaves(rest, s, margin);
    } else {
        assert(before + s =~= s);
    }
}

proof fn strip_back_leaves(s: Seq<char>, after: Seq<char>, margin: Margin)
    requires
        all_in(after, margin),
        s.len() > 0,
        !margin.covers(s.last()),
    ensures
        strip_back(s + after, margin) == s,
    decreases after.len(),
{
    if after.len() > 0 {
        let rest = after.drop_last();
        assert((s + after).drop_last() =~= s + rest);
        assert(all_in(rest, margin)) by {
            assert forall|i: int| 0 <= i < rest.len() implies margin.covers(rest[i]) by {
                assert(rest[i] == after[i]);
            }
        }
        assert((s + after).last() == after.last());
        strip_back_leaves(s, rest, margin);
    } else {
        assert(s + after =~= s);
    }
}

/// Stripping takes off what lies around a bare string, and nothing of the string.
pub proof fn strip_leaves_what_is_bare(
    before: Seq<char>,
    s: Seq<char>,
    after: Seq<char>,
    margin: Margin,
)
    requires
        all_in(before, margin),
        is_bare(s, margin),
        all_in(after, margin),
    ensures
        strip(before + s + after, margin) == s,
{
    assert(before + s + after =~= before + (s + after));
    assert((s + after)[0] == s[0]);
    strip_front_leaves(before, s + after, margin);
    strip_back_leaves(s, after, margin);
}

/// `find` gives the place of a character that does not occur before it.
pub proof fn find_gives_the_first(s: Seq<char>, c: char, at: int)
    requires
        0 <= at < s.len(),
        s[at] == c,
        forall|i: int| 0 <= i < at ==> s[i] != c,
    ensures
        find(s, c) == at,
{
    find_is_first(s, c);
    if find(s, c) < at {
        assert(s[find(s, c)] != c);
    }
}

/// A string of nothing but what is stripped leaves nothing.
pub proof fn strip_leaves_nothing_of_a_margin(s: Seq<char>, margin: Margin)
    requires
        all_in(s, margin),
    ensures
        strip(s, margin) == Seq::<char>::empty(),
    decreases s.len(),
{
    if s.len() > 0 {
        let rest = s.drop_first();
        assert forall|i: int| 0 <= i < rest.len() implies margin.covers(rest[i]) by {
            assert(rest[i] == s[i + 1]);
        }
        strip_leaves_nothing_of_a_margin(rest, margin);
    } else {
        assert(s =~= Seq::empty());
    }
}

/// Trimming takes off the white space before and behind, and nothing of what lies
/// between the first and the last character that is none.
pub proof fn trimming_takes_off_white_space(before: Seq<char>, s: Seq<char>, after: Seq<char>)
    requires
        forall|i: int| 0 <= i < before.len() ==> is_space(#[trigger] before[i]),
        forall|i: int| 0 <= i < after.len() ==> is_space(#[trigger] after[i]),
        s.len() > 0 ==> !is_space(s[0]) && !is_space(s[s.len() - 1]),
    ensures
        trim(before + s + after) == s,
{
    if s.len() > 0 {
        strip_leaves_what_is_bare(before, s, after, Margin::Space);
    } else {
        let all = before + s + after;
        assert forall|i: int| 0 <= i < all.len() implies Margin::Space.covers(all[i]) by {
            if i < before.len() {
                assert(all[i] == before[i]);
            } else {
                assert(all[i] == after[i - before.len()]);
            }
        }
        strip_leaves_nothing_of_a_margin(all, Margin::Space);
        assert(s =~= Seq::empty());
    }
}

/// Stripping a character takes off each of it before and behind, and nothing of what
/// lies between the first and the last other one.
pub proof fn stripping_takes_off_one_character(
    mark: char,
    before: Seq<char>,
    s: Seq<char>,
    after: Seq<char>,
)
    requires
        forall|i: int| 0 <= i < before.len() ==> #[trigger] before[i] == mark,
        forall|i: int| 0 <= i < after.len() ==> #[trigger] after[i] == mark,
        s.len() > 0 ==> s[0] != mark && s[s.len() - 1] != mark,
    ensures
        strip(before + s + after, Margin::Mark(mark)) == s,
{
    if s.len() > 0 {
        strip_leaves_what_is_bare(before, s, after, Margin::Mark(mark));
    } else {
        let all = before + s + after;
        assert forall|i: int| 0 <= i < all.len() implies Margin::Mark(mark).covers(all[i]) by {
            if i < before.len() {
                assert(all[i] == before[i]);
            } else {
                assert(all[i] == after[i - before.len()]);
            }
        }
        strip_leaves_nothing_of_a_margin(all, Margin::Mark(mark));
        assert(s =~= Seq::empty());
    }
}

/// In lower case a string is as long as before; each letter from A to Z is the one 32
/// behind it, and every other character is itself.
pub proof fn lower_case_changes_letters_only(s: Seq<char>, i: int)
    requires
        0 <= i < s.len(),
    ensures
        lower(s).len() == s.len(),
        0x41 <= s[i] as u32 <= 0x5a ==> lower(s)[i] as u32 == s[i] as u32 + 32,
        !(0x41 <= s[i] as u32 <= 0x5a) ==> lower(s)[i] == s[i],
{
}

proof fn strip_back_keeps_the_first(s: Seq<char>, margin: Margin)
    requires
        s.len() > 0,
        !margin.covers(s[0]),
    ensures
        strip_back(s, margin).len() > 0,
        strip_back(s, margin)[0] == s[0],
    decreases s.len(),
{
    if margin.covers(s.last()) {
        strip_back_keeps_the_first(s.drop_last(), margin);
    }
}

/// A string trimmed starts with its first character that is no white space.
pub proof fn trimming_keeps_the_first_character(before: Seq<char>, s: Seq<char>)
    requires
        forall|i: int| 0 <= i < before.len() ==> is_space(#[trigger] before[i]),
        s.len() > 0,
        !is_space(s[0]),
    ensures
        trim(before + s).len() > 0,
        trim(before + s)[0] == s[0],
{
    strip_front_leaves(before, s, Margin::Space);
    strip_back_keeps_the_first(s, Margin::Space);
}

proof fn strip_front_is_an_end(s: Seq<char>, margin: Margin)
    ensures
        strip_front(s, margin).len() <= s.len(),
        strip_front(s, margin) == s.skip(s.len() - strip_front(s, margin).len()),
    decreases s.len(),
{
    if s.len() > 0 && margin.covers(s[0]) {
        strip_front_is_an_end(s.drop_first(), margin);
    }
    assert(strip_front(s, margin) =~= s.skip(s.len() - strip_front(s, margin).len()));
}

proof fn strip_back_is_a_start(s: Seq<char>, margin: Margin)
    ensures
        strip_back(s, margin).len() <= s.len(),
        strip_back(s, margin) == s.take(strip_back(s, margin).len() as int),
    decreases s.len(),
{
    if s.len() > 0 && margin.covers(s.last()) {
        strip_back_is_a_start(s.drop_last(), margin);
    }
    assert(strip_back(s, margin) =~= s.take(strip_back(s, margin).len() as int));
}

/// Trimming brings in no character that was not there.
pub proof fn trimming_adds_nothing(s: Seq<char>, c: char)
    requires
        forall|i: int| 0 <= i < s.len() ==> s[i] != c,
    ensures
        forall|i: int| 0 <= i < trim(s).len() ==> trim(s)[i] != c,
{
    strip_front_is_an_end(s, Margin::Space);
    strip_back_is_a_start(strip_front(s, Margin::Space), Margin::Space);
}

/// White space are the characters that Unicode counts as such: those from 0x9 to 0xd, the
/// space, 0x85, 0xa0, 0x1680, those from 0x2000 to 0x200a, 0x2028, 0x2029, 0x202f, 0x205f
/// and 0x3000.
pub proof fn white_space_is_that_of_unicode(c: char)
    ensures
        ({
            let n = c as u32;
            is_space(c) <==> {
                ||| n >= 0x9 && n <= 0xd
                ||| n == 0x20 || n == 0x85 || n == 0xa0 || n == 0x1680
                ||| n >= 0x2000 && n <= 0x200a
                ||| n == 0x2028 || n == 0x2029 || n == 0x202f || n == 0x205f || n == 0x3000
            }
        }),
{
}

} // verus!
