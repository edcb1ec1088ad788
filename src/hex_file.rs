//! Cleaning of the text of a hex-encoded key file before it is decoded:
//! surrounding whitespace, then surrounding quotes, then a `0x` prefix are
//! removed.
use vstd::prelude::*;

verus! {

/// The characters with the Unicode White_Space property.
pub open spec fn is_whitespace(c: char) -> bool {
    ('\u{9}' <= c && c <= '\u{d}') || c == ' ' || c == '\u{85}' || c == '\u{a0}' || c == '\u{1680}'
        || ('\u{2000}' <= c && c <= '\u{200a}') || c == '\u{2028}' || c == '\u{2029}' || c
        == '\u{202f}' || c == '\u{205f}' || c == '\u{3000}'
}

/// A single or double quote.
pub open spec fn is_quote(c: char) -> bool {
    c == '"' || c == '\''
}

/// The class removed in a trimming pass: whitespace, or quotes.
pub open spec fn in_class(quotes: bool, c: char) -> bool {
    if quotes {
        is_quote(c)
    } else {
        is_whitespace(c)
    }
}

/// `s` without the leading characters of the class.
pub open spec fn strip_front(s: Seq<char>, quotes: bool) -> Seq<char>
    decreases s.len(),
{
    if s.len() > 0 && in_class(quotes, s[0]) {
        strip_front(s.skip(1), quotes)
    } else {
        s
    }
}

/// `s` without the trailing characters of the class.
pub open spec fn strip_back(s: Seq<char>, quotes: bool) -> Seq<char>
    decreases s.len(),
{
    if s.len() > 0 && in_class(quotes, s.last()) {
        strip_back(s.drop_last(), quotes)
    } else {
        s
    }
}

/// `s` without the characters of the class at either end.
pub open spec fn trim_class(s: Seq<char>, quotes: bool) -> Seq<char> {
    strip_back(strip_front(s, quotes), quotes)
}

/// The text once whitespace, then quotes, are trimmed and a `0x` prefix is
/// dropped.
pub open spec fn cleaned(s: Seq<char>) -> Seq<char> {
    let u = trim_class(trim_class(s, false), true);
    if u.len() >= 2 && u[0] == '0' && u[1] == 'x' {
        u.skip(2)
    } else {
        u
    }
}

fn char_in_class(quotes: bool, c: char) -> (r: bool)
    ensures
        r == in_class(quotes, c),
{
    if quotes {
        c == '"' || c == '\''
    } else {
        ('\u{9}' <= c && c <= '\u{d}') || c == ' ' || c == '\u{85}' || c == '\u{a0}' || c
            == '\u{1680}' || ('\u{2000}' <= c && c <= '\u{200a}') || c == '\u{2028}' || c
            == '\u{2029}' || c == '\u{202f}' || c == '\u{205f}' || c == '\u{3000}'
    }
}

/// The bounds, within `lo..hi`, of what trimming the class leaves.
fn trim_range(s: &Vec<char>, lo: usize, hi: usize, quotes: bool) -> (r: (usize, usize))
    requires
        lo <= hi <= s@.len(),
    ensures
        lo <= r.0 <= r.1 <= hi,
        s@.subrange(r.0 as int, r.1 as int) == trim_class(s@.subrange(lo as int, hi as int), quotes),
{
    let mut i = lo;
    while i < hi && char_in_class(quotes, s[i])
        invariant
            lo <= i <= hi <= s@.len(),
            strip_front(s@.subrange(lo as int, hi as int), quotes) == strip_front(
                s@.subrange(i as int, hi as int),
                quotes,
            ),
        decreases hi - i,
    {
        assert(s@.subrange(i as int, hi as int).skip(1) =~= s@.subrange(i + 1, hi as int));
        i = i + 1;
    }
    let mut j = hi;
    while j > i && char_in_class(quotes, s[j - 1])
        invariant
            lo <= i <= j <= hi <= s@.len(),
            strip_back(s@.subrange(i as int, hi as int), quotes) == strip_back(
                s@.subrange(i as int, j as int),
                quotes,
            ),
        decreases j - i,
    {
        assert(s@.subrange(i as int, j as int).drop_last() =~= s@.subrange(i as int, j - 1));
        j = j - 1;
    }
    (i, j)
}

/// Cleans the text of a key file: trims whitespace, then quotes, then
/// drops a `0x` prefix. Whether what is left is valid hex is for the
/// decoder to say.
pub fn clean_hex_str(s: &Vec<char>) -> (r: Vec<char>)
    ensures
        r@ == cleaned(s@),
{
    let (a, b) = trim_range(s, 0, s.len(), false);
    assert(s@.subrange(0, s@.len() as int) =~= s@);
    let (c, d) = trim_range(s, a, b, true);
    let mut start = c;
    if d - c >= 2 && s[c] == '0' && s[c + 1] == 'x' {
        start = c + 2;
    }
    let mut r: Vec<char> = Vec::new();
    let mut k = start;
    while k < d
        invariant
            start <= k <= d <= s@.len(),
            r@ == s@.subrange(start as int, k as int),
        decreases d - k,
    {
        r.push(s[k]);
        k = k + 1;
        assert(r@ =~= s@.subrange(start as int, k as int));
    }
    proof {
        let u = s@.subrange(c as int, d as int);
        assert(u == trim_class(trim_class(s@, false), true));
        if start == c + 2 {
            assert(u.skip(2) =~= s@.subrange(start as int, d as int));
        } else {
            assert(u =~= s@.subrange(start as int, d as int));
        }
    }
    r
}

} // verus!
