//! Cursor theme settings and the images of theme cursors.
use vstd::prelude::*;

use crate::bitmap::{
    image_signature_defined, signature_of, xcursor_pixels_to_rgba, xcursor_rgba,
};
use crate::classifier::{theme_image_view, ThemeCursor, ThemeImageView};
use crate::cursor::{CursorKind, Hotspot};

verus! {

broadcast use vstd::string::group_string_axioms;

/// The characters of `s`.
fn str_chars(s: &str) -> (res: Vec<char>)
    ensures
        res@ == s@,
{
    let mut out: Vec<char> = Vec::new();
    for c in it: s.chars()
        invariant
            out@ == it.seq().take(it.index()),
    {
        out.push(c);
    }
    out
}


/// Whether `c` is white space in the sense of Unicode's `White_Space` property, as
/// `char::is_whitespace` and `str::trim` use it.
pub open spec fn is_whitespace(c: char) -> bool {
    let v = c as u32;
    ||| 0x09 <= v <= 0x0d
    ||| v == 0x20
    ||| v == 0x85
    ||| v == 0xa0
    ||| v == 0x1680
    ||| 0x2000 <= v <= 0x200a
    ||| v == 0x2028
    ||| v == 0x2029
    ||| v == 0x202f
    ||| v == 0x205f
    ||| v == 0x3000
}

/// The characters a trim removes.
#[derive(Clone, Copy)]
pub enum TrimSet {
    Whitespace,
    Quotes,
}

/// Whether `set` holds `c`; the quotes are `'` and `"`.
pub open spec fn trims(set: TrimSet, c: char) -> bool {
    match set {
        TrimSet::Whitespace => is_whitespace(c),
        TrimSet::Quotes => c == '\'' || c == '"',
    }
}

/// `s` without the characters of `set` at its start.
pub open spec fn strip_start(s: Seq<char>, set: TrimSet) -> Seq<char>
    decreases s.len(),
{
    if s.len() > 0 && trims(set, s[0]) {
        strip_start(s.drop_first(), set)
    } else {
        s
    }
}

/// `s` without the characters of `set` at its end.
pub open spec fn strip_end(s: Seq<char>, set: TrimSet) -> Seq<char>
    decreases s.len(),
{
    if s.len() > 0 && trims(set, s.last()) {
        strip_end(s.drop_last(), set)
    } else {
        s
    }
}

/// `s` without the characters of `set` at either end.
pub open spec fn trim_by(s: Seq<char>, set: TrimSet) -> Seq<char> {
    strip_end(strip_start(s, set), set)
}

/// A setting value without surrounding white space and quotes; `None` when nothing is left.
pub open spec fn spec_clean_setting(value: Seq<char>) -> Option<Seq<char>> {
    let t = trim_by(
        trim_by(trim_by(value, TrimSet::Whitespace), TrimSet::Quotes),
        TrimSet::Whitespace,
    );
    if t.len() == 0 {
        None
    } else {
        Some(t)
    }
}

/// Whether every character of `s` is in `set`.
pub open spec fn all_trimmed(s: Seq<char>, set: TrimSet) -> bool {
    forall|k: int| 0 <= k < s.len() ==> trims(set, #[trigger] s[k])
}

/// Characters of `set` in front of `s` are all stripped.
proof fn lemma_strip_start_prefix(p: Seq<char>, s: Seq<char>, set: TrimSet)
    requires
        all_trimmed(p, set),
    ensures
        strip_start(p + s, set) == strip_start(s, set),
    decreases p.len(),
{
    if p.len() > 0 {
        assert((p + s).drop_first() =~= p.drop_first() + s);
        assert((p + s)[0] == p[0]);
        lemma_strip_start_prefix(p.drop_first(), s, set);
    } else {
        assert(p + s =~= s);
    }
}

/// Characters of `set` behind `s` are all stripped.
proof fn lemma_strip_end_suffix(s: Seq<char>, p: Seq<char>, set: TrimSet)
    requires
        all_trimmed(p, set),
    ensures
        strip_end(s + p, set) == strip_end(s, set),
    decreases p.len(),
{
    if p.len() > 0 {
        assert((s + p).drop_last() =~= s + p.drop_last());
        assert((s + p).last() == p.last());
        lemma_strip_end_suffix(s, p.drop_last(), set);
    } else {
        assert(s + p =~= s);
    }
}

/// Whether `t` neither starts nor ends with white space or a quote.
pub open spec fn is_bare_setting(t: Seq<char>) -> bool {
    &&& t.len() > 0
    &&& !is_whitespace(t[0])
    &&& !is_whitespace(t.last())
    &&& !trims(TrimSet::Quotes, t[0])
    &&& !trims(TrimSet::Quotes, t.last())
}

/// A quoted and padded setting gives its value back: white space around quotes
/// around a value that neither starts nor ends with white space or a quote cleans
/// to that value.
pub proof fn lemma_clean_setting_round_trip(
    t: Seq<char>,
    open_quotes: Seq<char>,
    close_quotes: Seq<char>,
    leading: Seq<char>,
    trailing: Seq<char>,
)
    requires
        is_bare_setting(t),
        all_trimmed(open_quotes, TrimSet::Quotes),
        all_trimmed(close_quotes, TrimSet::Quotes),
        all_trimmed(leading, TrimSet::Whitespace),
        all_trimmed(trailing, TrimSet::Whitespace),
    ensures
        spec_clean_setting(leading + open_quotes + t + close_quotes + trailing) == Some(t),
{
    let ws = TrimSet::Whitespace;
    let qs = TrimSet::Quotes;
    let inner = open_quotes + t + close_quotes;
    let x = leading + open_quotes + t + close_quotes + trailing;
    // White space: the padding goes, the quotes stop it.
    assert(x =~= leading + (inner + trailing));
    lemma_strip_start_prefix(leading, inner + trailing, ws);
    let first = (inner + trailing)[0];
    assert(first == if open_quotes.len() > 0 { open_quotes[0] } else { t[0] });
    assert(!is_whitespace(first));
    assert(strip_start(inner + trailing, ws) == inner + trailing);
    lemma_strip_end_suffix(inner, trailing, ws);
    assert(inner.last() == if close_quotes.len() > 0 { close_quotes.last() } else { t.last() });
    assert(strip_end(inner, ws) == inner);
    assert(trim_by(x, ws) == inner);
    // Quotes: the quotes go, the value stops them.
    assert(inner =~= open_quotes + (t + close_quotes));
    lemma_strip_start_prefix(open_quotes, t + close_quotes, qs);
    assert((t + close_quotes)[0] == t[0]);
    assert(strip_start(t + close_quotes, qs) == t + close_quotes);
    lemma_strip_end_suffix(t, close_quotes, qs);
    assert(strip_end(t, qs) == t);
    assert(trim_by(inner, qs) == t);
    // White space again: nothing is left to remove.
    assert(strip_start(t, ws) == t);
    assert(strip_end(t, ws) == t);
    assert(trim_by(t, ws) == t);
}

fn in_trim_set(set: TrimSet, c: char) -> (res: bool)
    ensures
        res == trims(set, c),
{
    match set {
        TrimSet::Whitespace => {
            let v = c as u32;
            (0x09 <= v && v <= 0x0d) || v == 0x20 || v == 0x85 || v == 0xa0 || v == 0x1680 || (
            0x2000 <= v && v <= 0x200a) || v == 0x2028 || v == 0x2029 || v == 0x202f || v == 0x205f
                || v == 0x3000
        },
        TrimSet::Quotes => c == '\'' || c == '"',
    }
}

/// The bounds of `chars[lo..hi]` trimmed of the characters of `set`.
fn trim_range(chars: &Vec<char>, lo: usize, hi: usize, set: TrimSet) -> (res: (usize, usize))
    requires
        lo <= hi <= chars@.len(),
    ensures
        lo <= res.0 <= res.1 <= hi,
        chars@.subrange(res.0 as int, res.1 as int) == trim_by(
            chars@.subrange(lo as int, hi as int),
            set,
        ),
{
    let mut a = lo;
    while a < hi && in_trim_set(set, chars[a])
        invariant
            lo <= a <= hi <= chars@.len(),
            strip_start(chars@.subrange(lo as int, hi as int), set) == strip_start(
                chars@.subrange(a as int, hi as int),
                set,
            ),
        decreases hi - a,
    {
        assert(chars@.subrange(a as int, hi as int).drop_first() =~= chars@.subrange(
            a + 1,
            hi as int,
        ));
        a = a + 1;
    }
    let ghost start = chars@.subrange(a as int, hi as int);
    assert(strip_start(start, set) == start);
    let mut b = hi;
    while b > a && in_trim_set(set, chars[b - 1])
        invariant
            lo <= a <= b <= hi <= chars@.len(),
            start == chars@.subrange(a as int, hi as int),
            strip_end(start, set) == strip_end(chars@.subrange(a as int, b as int), set),
        decreases b - a,
    {
        assert(chars@.subrange(a as int, b as int).drop_last() =~= chars@.subrange(
            a as int,
            b - 1,
        ));
        b = b - 1;
    }
    (a, b)
}

/// The bounds of the cleaned setting value `chars[lo..hi]`, when something is left.
fn clean_range(chars: &Vec<char>, lo: usize, hi: usize) -> (res: Option<(usize, usize)>)
    requires
        lo <= hi <= chars@.len(),
    ensures
        res is Some <==> spec_clean_setting(chars@.subrange(lo as int, hi as int)) is Some,
        res matches Some(r) ==> r.0 <= r.1 <= chars@.len() && Some(
            chars@.subrange(r.0 as int, r.1 as int),
        ) == spec_clean_setting(chars@.subrange(lo as int, hi as int)),
{
    let (a, b) = trim_range(chars, lo, hi, TrimSet::Whitespace);
    let (a, b) = trim_range(chars, a, b, TrimSet::Quotes);
    let (a, b) = trim_range(chars, a, b, TrimSet::Whitespace);
    if a == b {
        None
    } else {
        Some((a, b))
    }
}

/// A setting value without surrounding white space and quotes, such as the output of
/// `gsettings get`; `None` when nothing is left.
pub fn clean_setting(value: &str) -> (res: Option<String>)
    ensures
        res is Some <==> spec_clean_setting(value@) is Some,
        res matches Some(r) ==> Some(r@) == spec_clean_setting(value@),
{
    let chars = str_chars(value);
    assert(chars@.subrange(0, chars@.len() as int) =~= value@);
    match clean_range(&chars, 0, chars.len()) {
        Some((a, b)) => Some(String::from_str(value.substring_char(a, b))),
        None => None,
    }
}


/// The index of the first `c` in `s`, or the length of `s` when there is none.
pub open spec fn index_of_or_len(s: Seq<char>, c: char) -> int
    decreases s.len(),
{
    if s.len() == 0 {
        0
    } else if s[0] == c {
        0
    } else {
        1 + index_of_or_len(s.drop_first(), c)
    }
}

/// `index_of_or_len` lies within the sequence.
pub proof fn lemma_index_of_or_len_bounds(s: Seq<char>, c: char)
    ensures
        0 <= index_of_or_len(s, c) <= s.len(),
        index_of_or_len(s, c) < s.len() ==> s[index_of_or_len(s, c)] == c,
    decreases s.len(),
{
    if s.len() > 0 && s[0] != c {
        lemma_index_of_or_len_bounds(s.drop_first(), c);
    }
}

/// The value that one settings line gives to `key`: the text after the line's first
/// `=`, cleaned, when the text before it, trimmed of white space, is `key`.
pub open spec fn line_setting(line: Seq<char>, key: Seq<char>) -> Option<Seq<char>> {
    let eq = index_of_or_len(line, '=');
    if eq < line.len() && trim_by(line.subrange(0, eq), TrimSet::Whitespace) == key {
        spec_clean_setting(line.subrange(eq + 1, line.len() as int))
    } else {
        None
    }
}

/// The first value that a line of `contents` gives to `key`; lines end at `\n`.
pub open spec fn spec_setting_value(contents: Seq<char>, key: Seq<char>) -> Option<Seq<char>>
    decreases contents.len(),
{
    let end = index_of_or_len(contents, '\n');
    let here = line_setting(contents.subrange(0, end), key);
    if here is Some {
        here
    } else if 0 <= end < contents.len() {
        spec_setting_value(contents.subrange(end + 1, contents.len() as int), key)
    } else {
        None
    }
}

/// The index of the first `c` in `chars[from..to]`, or `to`.
fn find_char(chars: &Vec<char>, from: usize, to: usize, c: char) -> (res: usize)
    requires
        from <= to <= chars@.len(),
    ensures
        from <= res <= to,
        res - from == index_of_or_len(chars@.subrange(from as int, to as int), c),
{
    let mut i = from;
    while i < to && chars[i] != c
        invariant
            from <= i <= to <= chars@.len(),
            index_of_or_len(chars@.subrange(from as int, to as int), c) == (i - from)
                + index_of_or_len(chars@.subrange(i as int, to as int), c),
        decreases to - i,
    {
        assert(chars@.subrange(i as int, to as int).drop_first() =~= chars@.subrange(
            i + 1,
            to as int,
        ));
        i = i + 1;
    }
    i
}

/// Whether `chars[lo..hi]` is `key`.
fn range_equals(chars: &Vec<char>, lo: usize, hi: usize, key: &Vec<char>) -> (res: bool)
    requires
        lo <= hi <= chars@.len(),
    ensures
        res == (chars@.subrange(lo as int, hi as int) == key@),
{
    if hi - lo != key.len() {
        return false;
    }
    let mut i: usize = 0;
    while i < key.len()
        invariant
            hi - lo == key@.len(),
            lo <= hi <= chars@.len(),
            i <= key@.len(),
            forall|j: int| 0 <= j < i ==> chars@[lo + j] == key@[j],
        decreases key@.len() - i,
    {
        if chars[lo + i] != key[i] {
            assert(chars@.subrange(lo as int, hi as int)[i as int] != key@[i as int]);
            return false;
        }
        i = i + 1;
    }
    assert(chars@.subrange(lo as int, hi as int) =~= key@);
    true
}

/// The value that the line `chars[start..end]` gives to `key`, taken from `contents`,
/// whose characters `chars` are.
fn line_value(contents: &str, chars: &Vec<char>, start: usize, end: usize, key: &Vec<char>) -> (res:
    Option<String>)
    requires
        chars@ == contents@,
        start <= end <= chars@.len(),
    ensures
        res is Some <==> line_setting(chars@.subrange(start as int, end as int), key@) is Some,
        res matches Some(v) ==> Some(v@) == line_setting(
            chars@.subrange(start as int, end as int),
            key@,
        ),
{
    let ghost line = chars@.subrange(start as int, end as int);
    let eq = find_char(chars, start, end, '=');
    if eq == end {
        return None;
    }
    proof {
        lemma_index_of_or_len_bounds(line, '=');
        assert(line.subrange(0, eq - start) =~= chars@.subrange(start as int, eq as int));
        assert(line.subrange(eq - start + 1, line.len() as int) =~= chars@.subrange(
            eq + 1,
            end as int,
        ));
    }
    let (a, b) = trim_range(chars, start, eq, TrimSet::Whitespace);
    if !range_equals(chars, a, b, key) {
        return None;
    }
    match clean_range(chars, eq + 1, end) {
        Some((a, b)) => Some(String::from_str(contents.substring_char(a, b))),
        None => None,
    }
}

/// The first value that a line of the settings text `contents` gives to `key`, as in
/// `key = value` lines of GTK `settings.ini` and KDE `kcminputrc` files; the value is
/// cleaned of white space and quotes, and lines whose value is empty are passed over.
pub fn setting_value(contents: &str, key: &str) -> (res: Option<String>)
    ensures
        res is Some <==> spec_setting_value(contents@, key@) is Some,
        res matches Some(v) ==> Some(v@) == spec_setting_value(contents@, key@),
{
    let chars = str_chars(contents);
    let key_chars = str_chars(key);
    let n = chars.len();
    assert(chars@.subrange(0, n as int) =~= chars@);
    let mut start: usize = 0;
    loop
        invariant
            chars@ == contents@,
            key_chars@ == key@,
            n == chars@.len(),
            start <= n,
            spec_setting_value(contents@, key@) == spec_setting_value(
                chars@.subrange(start as int, n as int),
                key@,
            ),
        decreases n - start,
    {
        let ghost rest = chars@.subrange(start as int, n as int);
        let end = find_char(&chars, start, n, '\n');
        proof {
            lemma_index_of_or_len_bounds(rest, '\n');
            assert(rest.subrange(0, end - start) =~= chars@.subrange(start as int, end as int));
            if end < n {
                assert(rest.subrange(end - start + 1, rest.len() as int) =~= chars@.subrange(
                    end + 1,
                    n as int,
                ));
            }
        }
        match line_value(contents, &chars, start, end, &key_chars) {
            Some(v) => return Some(v),
            None => {},
        }
        if end == n {
            return None;
        }
        start = end + 1;
    }
}


/// The texts of a list of names.
pub open spec fn name_texts(names: Seq<String>) -> Seq<Seq<char>> {
    names.map_values(|s: String| s@)
}

/// Whether no name is empty and no name occurs twice.
pub open spec fn theme_names_wf(names: Seq<Seq<char>>) -> bool {
    &&& forall|i: int| 0 <= i < names.len() ==> (#[trigger] names[i]).len() > 0
    &&& forall|i: int, j: int| 0 <= i < j < names.len() ==> names[i] != names[j]
}

/// The names after offering `candidate`: it is appended when it is given, not empty
/// and not among the names yet.
pub open spec fn spec_push_theme(names: Seq<Seq<char>>, candidate: Option<Seq<char>>) -> Seq<Seq<char>> {
    match candidate {
        Some(c) => if c.len() > 0 && !names.contains(c) {
            names.push(c)
        } else {
            names
        },
        None => names,
    }
}

/// Offers a theme name to the list of themes to search, in order of preference.
pub fn push_theme(names: &mut Vec<String>, candidate: Option<String>)
    ensures
        name_texts(final(names)@) == spec_push_theme(
            name_texts(old(names)@),
            match candidate {
                Some(c) => Some(c@),
                None => None,
            },
        ),
        theme_names_wf(name_texts(old(names)@)) ==> theme_names_wf(name_texts(final(names)@)),
{
    let name = match candidate {
        Some(c) => c,
        None => return,
    };
    if name.as_str().is_empty() {
        return;
    }
    let ghost texts = name_texts(names@);
    let mut found = false;
    let mut i: usize = 0;
    while i < names.len() && !found
        invariant
            texts == name_texts(names@),
            texts.len() == names@.len(),
            i <= names@.len(),
            found ==> texts.contains(name@),
            !found ==> forall|j: int| 0 <= j < i ==> texts[j] != name@,
        decreases names@.len() - i + (if found { 0int } else { 1int }),
    {
        if names[i] == name {
            assert(texts[i as int] == name@);
            found = true;
        } else {
            i = i + 1;
        }
    }
    if found {
        return;
    }
    assert(!texts.contains(name@));
    let ghost name_text = name@;
    names.push(name);
    assert(name_texts(names@) =~= texts.push(name_text));
}


/// One image of an Xcursor file: its size, its hotspot, and its pixels as stored in
/// the file (four bytes per pixel, blue first).
pub struct XcursorImage {
    pub width: u32,
    pub height: u32,
    pub xhot: u32,
    pub yhot: u32,
    pub pixels: Vec<u8>,
}

/// An Xcursor image as plain values: width, height, hotspot x and y, and pixel bytes.
pub type XcursorImageView = (u32, u32, u32, u32, Seq<u8>);

pub open spec fn xcursor_image_view(image: XcursorImage) -> XcursorImageView {
    (image.width, image.height, image.xhot, image.yhot, image.pixels@)
}

/// What the Xcursor parser checks of every image it returns: a size of at least one
/// and at most `0x7fff` pixels on each side, the hotspot inside, and four bytes per pixel.
pub open spec fn xcursor_image_wf(image: XcursorImageView) -> bool {
    &&& 1 <= image.0 <= 0x7fff
    &&& 1 <= image.1 <= 0x7fff
    &&& image.2 <= image.0
    &&& image.3 <= image.1
    &&& image.4.len() == 4 * image.0 * image.1
}

/// The images that the `xcursor` crate parses from the bytes of an Xcursor file, or
/// `None` when it rejects the file.
pub uninterp spec fn xcursor_images(content: Seq<u8>) -> Option<Seq<XcursorImageView>>;

/// Calls `xcursor::parser::parse_xcursor`. Claimed: the result is `xcursor_images` of
/// the bytes, and each image satisfies the checks that the parser makes before it
/// returns an image (size in `1..=0x7fff`, hotspot not beyond the size, `4 * width *
/// height` pixel bytes). Which images a file holds is not stated: it is the crate's
/// parsing of the Xcursor format.
#[verifier::external_body]
fn parse_xcursor(content: &[u8]) -> (res: Option<Vec<XcursorImage>>)
    ensures
        res is Some <==> xcursor_images(content@) is Some,
        res matches Some(images) ==> {
            &&& images@.map_values(|i: XcursorImage| xcursor_image_view(i)) == xcursor_images(
                content@,
            )->0
            &&& forall|k: int|
                0 <= k < images@.len() ==> xcursor_image_wf(
                    #[trigger] xcursor_image_view(images@[k]),
                )
        },
{
    xcursor::parser::parse_xcursor(content).map(
        |images| images.into_iter().map(
            |image| XcursorImage {
                width: image.width,
                height: image.height,
                xhot: image.xhot,
                yhot: image.yhot,
                pixels: image.pixels_rgba,
            },
        ).collect(),
    )
}

/// The theme image of `kind` made of an Xcursor image, when the image has a signature.
pub open spec fn theme_entry(kind: CursorKind, image: XcursorImageView) -> Option<ThemeImageView> {
    let rgba = xcursor_rgba(image.4);
    if image_signature_defined(rgba.len(), image.0, image.1) {
        Some(
            (
                kind,
                image.0,
                image.1,
                Hotspot { x: image.2, y: image.3 },
                signature_of(rgba, image.0, image.1),
            ),
        )
    } else {
        None
    }
}

/// The theme images after adding the images of one file, in order, each unless it is
/// already there.
pub open spec fn spec_add_theme_images(
    known: Seq<ThemeImageView>,
    images: Seq<XcursorImageView>,
    kind: CursorKind,
) -> Seq<ThemeImageView>
    decreases images.len(),
{
    if images.len() == 0 {
        known
    } else {
        let prev = spec_add_theme_images(known, images.drop_last(), kind);
        match theme_entry(kind, images.last()) {
            Some(e) => if prev.contains(e) {
                prev
            } else {
                prev.push(e)
            },
            None => prev,
        }
    }
}

/// The plain values of a list of theme images.
pub open spec fn theme_image_views(cands: Seq<ThemeCursor>) -> Seq<ThemeImageView> {
    cands.map_values(|c: ThemeCursor| theme_image_view(c))
}

/// Adds the images of one Xcursor file as theme images of `kind`, skipping images
/// without a signature and images already known.
pub fn add_theme_images(images: &Vec<XcursorImage>, kind: CursorKind, candidates: &mut Vec<ThemeCursor>)
    requires
        forall|k: int|
            0 <= k < images@.len() ==> xcursor_image_wf(#[trigger] xcursor_image_view(images@[k])),
    ensures
        theme_image_views(final(candidates)@) == spec_add_theme_images(
            theme_image_views(old(candidates)@),
            images@.map_values(|i: XcursorImage| xcursor_image_view(i)),
            kind,
        ),
{
    let ghost views = images@.map_values(|i: XcursorImage| xcursor_image_view(i));
    let ghost known = theme_image_views(candidates@);
    let mut i: usize = 0;
    while i < images.len()
        invariant
            views == images@.map_values(|i: XcursorImage| xcursor_image_view(i)),
            forall|k: int|
                0 <= k < images@.len() ==> xcursor_image_wf(
                    #[trigger] xcursor_image_view(images@[k]),
                ),
            i <= images@.len(),
            theme_image_views(candidates@) == spec_add_theme_images(known, views.take(i as int), kind),
        decreases images@.len() - i,
    {
        let image = &images[i];
        assert(xcursor_image_wf(xcursor_image_view(images@[i as int])));
        assert(views.take(i + 1).drop_last() =~= views.take(i as int));
        assert(views.take(i + 1).last() == views[i as int]);
        let rgba = xcursor_pixels_to_rgba(image.pixels.as_slice());
        let hotspot = Hotspot { x: image.xhot, y: image.yhot };
        match ThemeCursor::from_rgba(kind, image.width, image.height, hotspot, rgba.as_slice()) {
            Some(candidate) => {
                let ghost prev = theme_image_views(candidates@);
                let mut known_already = false;
                let mut j: usize = 0;
                while j < candidates.len() && !known_already
                    invariant
                        prev == theme_image_views(candidates@),
                        j <= candidates@.len(),
                        known_already ==> prev.contains(theme_image_view(candidate)),
                        !known_already ==> forall|k: int|
                            0 <= k < j ==> prev[k] != theme_image_view(candidate),
                    decreases candidates@.len() - j + (if known_already {
                        0int
                    } else {
                        1int
                    }),
                {
                    if candidates[j].same_image(&candidate) {
                        assert(prev[j as int] == theme_image_view(candidate));
                        known_already = true;
                    } else {
                        j = j + 1;
                    }
                }
                if !known_already {
                    assert(!prev.contains(theme_image_view(candidate)));
                    candidates.push(candidate);
                    assert(theme_image_views(candidates@) =~= prev.push(theme_image_view(candidate)));
                }
            },
            None => {},
        }
        i = i + 1;
    }
    assert(views.take(images@.len() as int) =~= views);
}

/// Adds the images of the Xcursor file `contents` as theme images of `kind`; a file
/// that the parser rejects adds nothing.
pub fn load_xcursor_file(contents: &[u8], kind: CursorKind, candidates: &mut Vec<ThemeCursor>)
    ensures
        theme_image_views(final(candidates)@) == match xcursor_images(contents@) {
            Some(images) => spec_add_theme_images(theme_image_views(old(candidates)@), images, kind),
            None => theme_image_views(old(candidates)@),
        },
{
    match parse_xcursor(contents) {
        Some(images) => add_theme_images(&images, kind, candidates),
        None => {},
    }
}


/// The kinds that cursor themes are searched for, in order.
pub open spec fn spec_themed_kinds() -> Seq<CursorKind> {
    seq![CursorKind::Default, CursorKind::Textcursor, CursorKind::Handpointing, CursorKind::Busy, CursorKind::Help, CursorKind::Cross, CursorKind::Move, CursorKind::Notallowed, CursorKind::Resizewesteast, CursorKind::Resizenorthsouth, CursorKind::Resizenortheastsouthwest, CursorKind::Resizenorthwestsoutheast]
}

/// The kinds that cursor themes are searched for, in order.
pub fn themed_kinds() -> (res: Vec<CursorKind>)
    ensures
        res@ == spec_themed_kinds(),
{
    let res = vec![CursorKind::Default, CursorKind::Textcursor, CursorKind::Handpointing, CursorKind::Busy, CursorKind::Help, CursorKind::Cross, CursorKind::Move, CursorKind::Notallowed, CursorKind::Resizewesteast, CursorKind::Resizenorthsouth, CursorKind::Resizenortheastsouthwest, CursorKind::Resizenorthwestsoutheast];
    assert(res@ =~= spec_themed_kinds());
    res
}

/// The icon names under which current cursor themes install the shape of `kind`.
pub open spec fn preferred_icon_names(kind: CursorKind) -> Seq<Seq<char>> {
    match kind {
        CursorKind::Default => seq!["default"@, "left_ptr"@, "arrow"@],
        CursorKind::Textcursor => seq!["text"@, "xterm"@, "vertical-text"@],
        CursorKind::Handpointing => seq!["pointer"@, "pointing_hand"@, "hand"@, "openhand"@, "closedhand"@, "grab"@, "grabbing"@, "copy"@, "alias"@],
        CursorKind::Busy => seq!["wait"@, "progress"@],
        CursorKind::Help => seq!["help"@],
        CursorKind::Cross => seq!["crosshair"@, "cross"@, "cell"@],
        CursorKind::Move => seq!["move"@, "all-scroll"@],
        CursorKind::Notallowed => seq!["not-allowed"@, "no-drop"@],
        CursorKind::Resizewesteast => seq!["ew-resize"@, "e-resize"@, "w-resize"@, "col-resize"@],
        CursorKind::Resizenorthsouth => seq!["ns-resize"@, "n-resize"@, "s-resize"@, "row-resize"@],
        CursorKind::Resizenortheastsouthwest => seq!["nesw-resize"@, "ne-resize"@, "sw-resize"@],
        CursorKind::Resizenorthwestsoutheast => seq!["nwse-resize"@, "nw-resize"@, "se-resize"@],
        CursorKind::Custom => Seq::empty(),
    }
}

/// The older icon names of the shape of `kind`, searched when a theme has none of the
/// current ones.
pub open spec fn legacy_icon_names(kind: CursorKind) -> Seq<Seq<char>> {
    match kind {
        CursorKind::Default => Seq::empty(),
        CursorKind::Textcursor => seq!["ibeam"@],
        CursorKind::Handpointing => seq!["hand1"@, "hand2"@, "link"@],
        CursorKind::Busy => seq!["watch"@, "half-busy"@, "left_ptr_watch"@],
        CursorKind::Help => seq!["whats_this"@, "question_arrow"@, "left_ptr_help"@],
        CursorKind::Cross => seq!["tcross"@, "diamond_cross"@],
        CursorKind::Move => seq!["fleur"@, "size_all"@, "dnd-move"@],
        CursorKind::Notallowed => seq!["forbidden"@, "crossed_circle"@, "dnd-no-drop"@],
        CursorKind::Resizewesteast => seq!["size-hor"@, "size_hor"@, "sb_h_double_arrow"@],
        CursorKind::Resizenorthsouth => seq!["size-ver"@, "size_ver"@, "sb_v_double_arrow"@],
        CursorKind::Resizenortheastsouthwest => seq!["size-bdiag"@, "size_bdiag"@],
        CursorKind::Resizenorthwestsoutheast => seq!["size-fdiag"@, "size_fdiag"@],
        CursorKind::Custom => Seq::empty(),
    }
}

/// The texts of a list of names.
pub open spec fn str_texts(names: Seq<&'static str>) -> Seq<Seq<char>> {
    names.map_values(|s: &'static str| s@)
}

/// The current and the older icon names of the shape of `kind`.
pub fn icon_names(kind: CursorKind) -> (res: (Vec<&'static str>, Vec<&'static str>))
    ensures
        str_texts(res.0@) == preferred_icon_names(kind),
        str_texts(res.1@) == legacy_icon_names(kind),
{
    let res: (Vec<&'static str>, Vec<&'static str>) = match kind {
        CursorKind::Default => (vec!["default", "left_ptr", "arrow"], Vec::new()),
        CursorKind::Textcursor => (vec!["text", "xterm", "vertical-text"], vec!["ibeam"]),
        CursorKind::Handpointing => (vec!["pointer", "pointing_hand", "hand", "openhand", "closedhand", "grab", "grabbing", "copy", "alias"], vec!["hand1", "hand2", "link"]),
        CursorKind::Busy => (vec!["wait", "progress"], vec!["watch", "half-busy", "left_ptr_watch"]),
        CursorKind::Help => (vec!["help"], vec!["whats_this", "question_arrow", "left_ptr_help"]),
        CursorKind::Cross => (vec!["crosshair", "cross", "cell"], vec!["tcross", "diamond_cross"]),
        CursorKind::Move => (vec!["move", "all-scroll"], vec!["fleur", "size_all", "dnd-move"]),
        CursorKind::Notallowed => (vec!["not-allowed", "no-drop"], vec!["forbidden", "crossed_circle", "dnd-no-drop"]),
        CursorKind::Resizewesteast => (vec!["ew-resize", "e-resize", "w-resize", "col-resize"], vec!["size-hor", "size_hor", "sb_h_double_arrow"]),
        CursorKind::Resizenorthsouth => (vec!["ns-resize", "n-resize", "s-resize", "row-resize"], vec!["size-ver", "size_ver", "sb_v_double_arrow"]),
        CursorKind::Resizenortheastsouthwest => (vec!["nesw-resize", "ne-resize", "sw-resize"], vec!["size-bdiag", "size_bdiag"]),
        CursorKind::Resizenorthwestsoutheast => (vec!["nwse-resize", "nw-resize", "se-resize"], vec!["size-fdiag", "size_fdiag"]),
        CursorKind::Custom => (Vec::new(), Vec::new()),
    };
    assert(str_texts(res.0@) =~= preferred_icon_names(kind));
    assert(str_texts(res.1@) =~= legacy_icon_names(kind));
    res
}


/// The byte texts of a list of keys.
pub open spec fn key_views(keys: Seq<Vec<u8>>) -> Seq<Seq<u8>> {
    keys.map_values(|k: Vec<u8>| k@)
}

/// Whether key `i` occurs nowhere before index `i`.
pub open spec fn is_first_occurrence(keys: Seq<Seq<u8>>, i: int) -> bool {
    forall|j: int| 0 <= j < i ==> #[trigger] keys[j] != keys[i]
}

/// The indices below `n` at which a key occurs for the first time, in order.
pub open spec fn first_occurrences(keys: Seq<Seq<u8>>, n: nat) -> Seq<usize>
    decreases n,
{
    if n == 0 {
        Seq::empty()
    } else {
        let prev = first_occurrences(keys, (n - 1) as nat);
        if is_first_occurrence(keys, n - 1) {
            prev.push((n - 1) as usize)
        } else {
            prev
        }
    }
}

/// Whether two byte strings are equal.
fn same_bytes(a: &Vec<u8>, b: &Vec<u8>) -> (res: bool)
    ensures
        res == (a@ == b@),
{
    if a.len() != b.len() {
        return false;
    }
    let mut i: usize = 0;
    while i < a.len()
        invariant
            a@.len() == b@.len(),
            i <= a@.len(),
            forall|j: int| 0 <= j < i ==> a@[j] == b@[j],
        decreases a@.len() - i,
    {
        if a[i] != b[i] {
            return false;
        }
        i = i + 1;
    }
    assert(a@ =~= b@);
    true
}

/// The indices of the icon files found for a list of icon names, each file once: the
/// first index of every key, where the key of a file is its path with its components
/// rejoined, so that two keys are equal when the paths are.
pub fn unique_indices(keys: &Vec<Vec<u8>>) -> (res: Vec<usize>)
    ensures
        res@ == first_occurrences(key_views(keys@), keys@.len() as nat),
{
    let ghost views = key_views(keys@);
    let mut res: Vec<usize> = Vec::new();
    let mut i: usize = 0;
    while i < keys.len()
        invariant
            views == key_views(keys@),
            i <= keys@.len(),
            res@ == first_occurrences(views, i as nat),
        decreases keys@.len() - i,
    {
        let mut seen = false;
        let mut j: usize = 0;
        while j < i && !seen
            invariant
                views == key_views(keys@),
                i < keys@.len(),
                j <= i,
                seen ==> !is_first_occurrence(views, i as int),
                !seen ==> forall|k: int| 0 <= k < j ==> views[k] != views[i as int],
            decreases i - j + (if seen {
                0int
            } else {
                1int
            }),
        {
            if same_bytes(&keys[j], &keys[i]) {
                assert(views[j as int] == views[i as int]);
                seen = true;
            } else {
                j = j + 1;
            }
        }
        if !seen {
            assert(is_first_occurrence(views, i as int));
            res.push(i);
        }
        i = i + 1;
    }
    res
}

/// The names after offering each of `candidates` in turn.
pub open spec fn spec_push_themes(names: Seq<Seq<char>>, candidates: Seq<Option<Seq<char>>>) -> Seq<Seq<char>>
    decreases candidates.len(),
{
    if candidates.len() == 0 {
        names
    } else {
        spec_push_theme(spec_push_themes(names, candidates.drop_last()), candidates.last())
    }
}

/// The theme that one settings file names: its GTK cursor theme, else its KDE one.
pub open spec fn settings_file_theme(contents: Option<Seq<char>>) -> Option<Seq<char>> {
    match contents {
        Some(c) => if spec_setting_value(c, "gtk-cursor-theme-name"@) is Some {
            spec_setting_value(c, "gtk-cursor-theme-name"@)
        } else {
            spec_setting_value(c, "cursorTheme"@)
        },
        None => None,
    }
}

/// The themes offered in order of preference: `XCURSOR_THEME`, the GNOME setting, the
/// settings files in turn, and the theme `default`.
pub open spec fn offered_themes(
    env_theme: Option<Seq<char>>,
    gsettings_theme: Option<Seq<char>>,
    settings_files: Seq<Option<Seq<char>>>,
) -> Seq<Option<Seq<char>>> {
    seq![env_theme, gsettings_theme] + settings_files.map_values(
        |c: Option<Seq<char>>| settings_file_theme(c),
    ) + seq![Some("default"@)]
}

/// The text of an optional string.
pub open spec fn option_text(s: Option<String>) -> Option<Seq<char>> {
    match s {
        Some(t) => Some(t@),
        None => None,
    }
}

/// The cursor themes to search, most preferred first, without repeats: the theme named
/// by `XCURSOR_THEME` (`env_theme`), by GNOME's settings (`gsettings_theme`), by each
/// GTK or KDE settings file in turn (`settings_files`, the contents of each, `None`
/// when unreadable), and finally `default`.
pub fn system_theme_names(
    env_theme: Option<String>,
    gsettings_theme: Option<String>,
    settings_files: &Vec<Option<String>>,
) -> (res: Vec<String>)
    ensures
        name_texts(res@) == spec_push_themes(
            Seq::empty(),
            offered_themes(
                option_text(env_theme),
                option_text(gsettings_theme),
                settings_files@.map_values(|c: Option<String>| option_text(c)),
            ),
        ),
        theme_names_wf(name_texts(res@)),
{
    let ghost offered = offered_themes(
        option_text(env_theme),
        option_text(gsettings_theme),
        settings_files@.map_values(|c: Option<String>| option_text(c)),
    );
    let mut names: Vec<String> = Vec::new();
    assert(name_texts(names@) =~= Seq::<Seq<char>>::empty());
    let ghost env_text = option_text(env_theme);
    let ghost gsettings_text = option_text(gsettings_theme);
    assert(offered[0] == env_text && offered[1] == gsettings_text);
    push_theme(&mut names, env_theme);
    assert(offered.take(1).drop_last() =~= Seq::<Option<Seq<char>>>::empty());
    assert(offered.take(1).last() == env_text);
    assert(spec_push_themes(Seq::empty(), Seq::<Option<Seq<char>>>::empty()) == Seq::<Seq<char>>::empty());
    assert(name_texts(names@) == spec_push_theme(Seq::empty(), env_text));
    assert(name_texts(names@) == spec_push_themes(Seq::empty(), offered.take(1)));
    push_theme(&mut names, gsettings_theme);
    assert(offered.take(2).drop_last() =~= offered.take(1));
    assert(name_texts(names@) == spec_push_themes(Seq::empty(), offered.take(2)));
    let mut i: usize = 0;
    while i < settings_files.len()
        invariant
            offered == offered_themes(
                option_text(env_theme),
                option_text(gsettings_theme),
                settings_files@.map_values(|c: Option<String>| option_text(c)),
            ),
            i <= settings_files@.len(),
            name_texts(names@) == spec_push_themes(Seq::empty(), offered.take(i + 2)),
            theme_names_wf(name_texts(names@)),
        decreases settings_files@.len() - i,
    {
        let value = match &settings_files[i] {
            Some(contents) => {
                let gtk = setting_value(contents.as_str(), "gtk-cursor-theme-name");
                if gtk.is_some() {
                    gtk
                } else {
                    setting_value(contents.as_str(), "cursorTheme")
                }
            },
            None => None,
        };
        assert(option_text(value) == offered[i + 2]);
        assert(offered.take(i + 3).drop_last() =~= offered.take(i + 2));
        push_theme(&mut names, value);
        i = i + 1;
    }
    proof {
        reveal_strlit("default");
    }
    let default_theme = String::from_str("default");
    assert(offered.take(i + 3).drop_last() =~= offered.take(i + 2));
    push_theme(&mut names, Some(default_theme));
    assert(offered.take(i + 3) =~= offered);
    names
}

} // verus!
