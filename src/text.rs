//! Title and preview of an entry, derived from its text alone.

use vstd::prelude::*;
use vstd::string::*;

verus! {

/// Most characters of body text that a preview shows.
pub const PREVIEW_CHARS: usize = 150;

/// The characters that `char::is_whitespace` accepts (Unicode `White_Space`).
pub open spec fn is_white_space(c: char) -> bool {
    ||| c == '\t' || c == '\n' || c == '\u{0B}' || c == '\u{0C}' || c == '\r' || c == ' '
    ||| c == '\u{85}' || c == '\u{A0}' || c == '\u{1680}'
    ||| ('\u{2000}' <= c && c <= '\u{200A}')
    ||| c == '\u{2028}' || c == '\u{2029}' || c == '\u{202F}' || c == '\u{205F}'
    ||| c == '\u{3000}'
}

/// Index of the first line break, or the length when there is none.
pub open spec fn line_break_index(s: Seq<char>) -> nat
    decreases s.len(),
{
    if s.len() == 0 || s[0] == '\n' {
        0
    } else {
        1 + line_break_index(s.drop_first())
    }
}

/// The text before the first line break.
pub open spec fn first_line(s: Seq<char>) -> Seq<char> {
    s.take(line_break_index(s) as int)
}

/// The text after the first line break; empty when there is a single line.
pub open spec fn body_of(s: Seq<char>) -> Seq<char> {
    if line_break_index(s) < s.len() {
        s.skip(line_break_index(s) + 1int)
    } else {
        Seq::empty()
    }
}

/// `s` without its leading heading markers.
pub open spec fn strip_heading_markers(s: Seq<char>) -> Seq<char>
    decreases s.len(),
{
    if s.len() > 0 && s[0] == '#' {
        strip_heading_markers(s.drop_first())
    } else {
        s
    }
}

/// `s` without its leading white space.
pub open spec fn trim_start(s: Seq<char>) -> Seq<char>
    decreases s.len(),
{
    if s.len() > 0 && is_white_space(s[0]) {
        trim_start(s.drop_first())
    } else {
        s
    }
}

/// `s` without its trailing white space.
pub open spec fn trim_end(s: Seq<char>) -> Seq<char>
    decreases s.len(),
{
    if s.len() > 0 && is_white_space(s.last()) {
        trim_end(s.drop_last())
    } else {
        s
    }
}

/// A heading line without its markers and the white space around its text.
pub open spec fn heading_text(line: Seq<char>) -> Seq<char> {
    trim_end(trim_start(strip_heading_markers(line)))
}

/// The title of an entry: the text of its first line as a heading, or the
/// fallback when that text is empty.
pub open spec fn title_of(content: Seq<char>, fallback: Seq<char>) -> Seq<char> {
    let h = heading_text(first_line(content));
    if h.len() == 0 {
        fallback
    } else {
        h
    }
}

/// The mark that ends a preview whose body was cut short.
pub open spec fn ellipsis() -> Seq<char> {
    seq!['.', '.', '.']
}

/// The preview of an entry: its body, cut to `PREVIEW_CHARS` characters and
/// marked with an ellipsis when it is longer.
pub open spec fn preview_of(content: Seq<char>) -> Seq<char> {
    let b = body_of(content);
    if b.len() > PREVIEW_CHARS {
        b.take(PREVIEW_CHARS as int) + ellipsis()
    } else {
        b
    }
}

/// The characters of `s`, one per element.
fn chars_of(s: &str) -> (r: Vec<char>)
    ensures
        r@ == s@,
{
    let mut v: Vec<char> = Vec::new();
    for c in it: s.chars()
        invariant
            v@ == it.seq().take(it.index()),
    {
        v.push(c);
    }
    v
}

/// Whether `c` is white space, as `char::is_whitespace` decides it.
pub fn is_white_space_char(c: char) -> (r: bool)
    ensures
        r == is_white_space(c),
{
    c == '\t' || c == '\n' || c == '\u{0B}' || c == '\u{0C}' || c == '\r' || c == ' '
        || c == '\u{85}' || c == '\u{A0}' || c == '\u{1680}' || ('\u{2000}' <= c && c
        <= '\u{200A}') || c == '\u{2028}' || c == '\u{2029}' || c == '\u{202F}' || c
        == '\u{205F}' || c == '\u{3000}'
}

/// Index of the first line break in `v`, or its length.
fn line_break_at(v: &Vec<char>) -> (r: usize)
    ensures
        r == line_break_index(v@),
        r <= v@.len(),
{
    let mut i: usize = 0;
    assert(v@.skip(0) =~= v@);
    while i < v.len() && v[i] != '\n'
        invariant
            i <= v@.len(),
            line_break_index(v@) == i + line_break_index(v@.skip(i as int)),
        decreases v@.len() - i,
    {
        assert(v@.skip(i as int).drop_first() =~= v@.skip(i + 1));
        i = i + 1;
    }
    i
}

/// First index in `lo..hi` past the heading markers that open `v[lo..hi]`.
fn skip_heading_markers(v: &Vec<char>, lo: usize, hi: usize) -> (r: usize)
    requires
        lo <= hi <= v@.len(),
    ensures
        lo <= r <= hi,
        strip_heading_markers(v@.subrange(lo as int, hi as int)) == v@.subrange(r as int, hi as int),
{
    let mut i = lo;
    while i < hi && v[i] == '#'
        invariant
            lo <= i <= hi <= v@.len(),
            strip_heading_markers(v@.subrange(lo as int, hi as int)) == strip_heading_markers(
                v@.subrange(i as int, hi as int),
            ),
        decreases hi - i,
    {
        assert(v@.subrange(i as int, hi as int).drop_first() =~= v@.subrange(i + 1, hi as int));
        i = i + 1;
    }
    i
}

/// First index in `lo..hi` past the white space that opens `v[lo..hi]`.
fn skip_white_space(v: &Vec<char>, lo: usize, hi: usize) -> (r: usize)
    requires
        lo <= hi <= v@.len(),
    ensures
        lo <= r <= hi,
        trim_start(v@.subrange(lo as int, hi as int)) == v@.subrange(r as int, hi as int),
{
    let mut i = lo;
    while i < hi && is_white_space_char(v[i])
        invariant
            lo <= i <= hi <= v@.len(),
            trim_start(v@.subrange(lo as int, hi as int)) == trim_start(
                v@.subrange(i as int, hi as int),
            ),
        decreases hi - i,
    {
        assert(v@.subrange(i as int, hi as int).drop_first() =~= v@.subrange(i + 1, hi as int));
        i = i + 1;
    }
    i
}

/// End of `v[lo..hi]` once the white space that closes it is dropped.
fn drop_trailing_white_space(v: &Vec<char>, lo: usize, hi: usize) -> (r: usize)
    requires
        lo <= hi <= v@.len(),
    ensures
        lo <= r <= hi,
        trim_end(v@.subrange(lo as int, hi as int)) == v@.subrange(lo as int, r as int),
{
    let mut j = hi;
    while lo < j && is_white_space_char(v[j - 1])
        invariant
            lo <= j <= hi <= v@.len(),
            trim_end(v@.subrange(lo as int, hi as int)) == trim_end(
                v@.subrange(lo as int, j as int),
            ),
        decreases j - lo,
    {
        assert(v@.subrange(lo as int, j as int).drop_last() =~= v@.subrange(lo as int, j - 1));
        j = j - 1;
    }
    j
}

/// The title of an entry with text `content`: its first line read as a
/// heading, or `fallback` when no text is left of it.
pub fn entry_title(content: &str, fallback: &str) -> (r: String)
    ensures
        r@ == title_of(content@, fallback@),
{
    let v = chars_of(content);
    let e = line_break_at(&v);
    assert(first_line(v@) =~= v@.subrange(0, e as int));
    let a = skip_heading_markers(&v, 0, e);
    let b = skip_white_space(&v, a, e);
    let f = drop_trailing_white_space(&v, b, e);
    if b == f {
        String::from_str(fallback)
    } else {
        String::from_str(content.substring_char(b, f))
    }
}

/// The preview of an entry with text `content`: the text after its first
/// line, cut to `PREVIEW_CHARS` characters and ended with `...` when longer.
pub fn entry_preview(content: &str) -> (r: String)
    ensures
        r@ == preview_of(content@),
{
    let v = chars_of(content);
    let e = line_break_at(&v);
    let n = v.len();
    if e < n {
        let start = e + 1;
        if n - start > PREVIEW_CHARS {
            let cut = String::from_str(content.substring_char(start, start + PREVIEW_CHARS));
            proof {
                reveal_strlit("...");
                assert(v@.skip(start as int).take(PREVIEW_CHARS as int) =~= v@.subrange(
                    start as int,
                    start + PREVIEW_CHARS,
                ));
            }
            let r = cut.concat("...");
            assert(r@ =~= preview_of(content@));
            r
        } else {
            assert(v@.skip(start as int) =~= v@.subrange(start as int, n as int));
            String::from_str(content.substring_char(start, n))
        }
    } else {
        assert(preview_of(content@) =~= Seq::<char>::empty());
        String::new()
    }
}

/// A preview is the body itself when the body has at most `PREVIEW_CHARS`
/// characters; otherwise it is the body's first `PREVIEW_CHARS` characters
/// followed by the ellipsis, and nothing more.
pub proof fn lemma_preview_length(content: Seq<char>)
    ensures
        body_of(content).len() <= PREVIEW_CHARS ==> preview_of(content) == body_of(content),
        body_of(content).len() > PREVIEW_CHARS ==> {
            &&& preview_of(content).len() == PREVIEW_CHARS + ellipsis().len()
            &&& preview_of(content).take(PREVIEW_CHARS as int) == body_of(content).take(
                PREVIEW_CHARS as int,
            )
            &&& preview_of(content).skip(PREVIEW_CHARS as int) == ellipsis()
        },
{
    let b = body_of(content);
    if b.len() > PREVIEW_CHARS {
        let p = preview_of(content);
        assert(p.take(PREVIEW_CHARS as int) =~= b.take(PREVIEW_CHARS as int));
        assert(p.skip(PREVIEW_CHARS as int) =~= ellipsis());
    }
}

/// The first line break of `a + b` is where `b` starts, when `a` has no line
/// break and `b` starts with one.
pub proof fn lemma_line_break_after(a: Seq<char>, b: Seq<char>)
    requires
        forall|i: int| 0 <= i < a.len() ==> a[i] != '\n',
        b.len() > 0,
        b[0] == '\n',
    ensures
        line_break_index(a + b) == a.len(),
    decreases a.len(),
{
    if a.len() > 0 {
        assert((a + b).drop_first() =~= a.drop_first() + b);
        lemma_line_break_after(a.drop_first(), b);
    } else {
        assert(a + b =~= b);
    }
}

} // verus!
