//! The typographic glyphs the educator emits, and the character classes it reads.
use vstd::prelude::*;

verus! {

/// Left double quotation mark.
pub const LDQUO: char = '\u{201c}';

/// Right double quotation mark.
pub const RDQUO: char = '\u{201d}';

/// Left single quotation mark.
pub const LSQUO: char = '\u{2018}';

/// Right single quotation mark, also the typographic apostrophe.
pub const RSQUO: char = '\u{2019}';

/// En dash.
pub const ENDASH: char = '\u{2013}';

/// Em dash.
pub const EMDASH: char = '\u{2014}';

/// Horizontal ellipsis.
pub const ELLIPSIS: char = '\u{2026}';

/// The characters with the Unicode `White_Space` property.
pub open spec fn is_white_space(c: char) -> bool {
    ||| ('\u{9}' <= c && c <= '\u{d}')
    ||| c == ' '
    ||| c == '\u{85}'
    ||| c == '\u{a0}'
    ||| c == '\u{1680}'
    ||| ('\u{2000}' <= c && c <= '\u{200a}')
    ||| c == '\u{2028}'
    ||| c == '\u{2029}'
    ||| c == '\u{202f}'
    ||| c == '\u{205f}'
    ||| c == '\u{3000}'
}

/// Whether the non-ASCII character `c` has the Unicode `Alphabetic` property
/// (as `char::is_alphabetic` reports it).
pub uninterp spec fn alphabetic_beyond_ascii(c: char) -> bool;

/// The lowercase mapping of the non-ASCII character `c` (as `char::to_lowercase`
/// yields it).
pub uninterp spec fn lowercase_beyond_ascii(c: char) -> Seq<char>;

/// Whether `c` has the Unicode `Alphabetic` property: among ASCII characters,
/// exactly the letters.
pub open spec fn is_alphabetic_char(c: char) -> bool {
    if c <= '\x7f' {
        is_ascii_alphabetic(c)
    } else {
        alphabetic_beyond_ascii(c)
    }
}

/// `c` with an ASCII uppercase letter made lowercase.
pub open spec fn ascii_lowercase(c: char) -> char {
    if 'A' <= c && c <= 'Z' {
        (c as int + 32) as char
    } else {
        c
    }
}

/// The lowercase mapping of `c`: for an ASCII character, its ASCII lowercase.
pub open spec fn lowercase_of(c: char) -> Seq<char> {
    if c <= '\x7f' {
        seq![ascii_lowercase(c)]
    } else {
        lowercase_beyond_ascii(c)
    }
}

/// Whether `c` is whitespace as `char::is_whitespace` decides it: one of the
/// characters with the Unicode `White_Space` property.
pub fn is_whitespace(c: char) -> (r: bool)
    ensures
        r == is_white_space(c),
{
    ('\u{9}' <= c && c <= '\u{d}') || c == ' ' || c == '\u{85}' || c == '\u{a0}' || c == '\u{1680}'
        || ('\u{2000}' <= c && c <= '\u{200a}') || c == '\u{2028}' || c == '\u{2029}' || c
        == '\u{202f}' || c == '\u{205f}' || c == '\u{3000}'
}

/// `char::is_alphabetic`: its documentation ties it to the Unicode `Alphabetic`
/// property, under which the ASCII characters that count are exactly the
/// letters; beyond ASCII the contract only ties the answer to the character,
/// through the name `alphabetic_beyond_ascii`, and the Unicode table behind it
/// is not written out here.
#[verifier::external_body]
pub(crate) fn is_alphabetic(c: char) -> (r: bool)
    ensures
        c <= '\x7f' ==> r == is_ascii_alphabetic(c),
        c > '\x7f' ==> r == alphabetic_beyond_ascii(c),
{
    c.is_alphabetic()
}

/// `char::to_lowercase`, collected: its documentation says it yields one or more
/// characters, and for an ASCII character the ASCII lowercase of it; beyond
/// ASCII the contract only ties the characters it yields to the character,
/// through the name `lowercase_beyond_ascii`, and the Unicode case mapping
/// behind it is not written out here.
#[verifier::external_body]
pub(crate) fn to_lowercase(c: char) -> (r: Vec<char>)
    ensures
        r@.len() > 0,
        c <= '\x7f' ==> r@ == seq![ascii_lowercase(c)],
        c > '\x7f' ==> r@ == lowercase_beyond_ascii(c),
{
    c.to_lowercase().collect()
}

pub open spec fn is_ascii_digit(c: char) -> bool {
    '0' <= c && c <= '9'
}

pub open spec fn is_ascii_alphabetic(c: char) -> bool {
    ('a' <= c && c <= 'z') || ('A' <= c && c <= 'Z')
}

pub open spec fn is_ascii_alphanumeric(c: char) -> bool {
    is_ascii_digit(c) || is_ascii_alphabetic(c)
}

/// Whether `c` is an ASCII decimal digit.
pub fn ascii_digit(c: char) -> (r: bool)
    ensures
        r == is_ascii_digit(c),
{
    '0' <= c && c <= '9'
}

/// Whether `c` is an ASCII letter.
pub fn ascii_alphabetic(c: char) -> (r: bool)
    ensures
        r == is_ascii_alphabetic(c),
{
    ('a' <= c && c <= 'z') || ('A' <= c && c <= 'Z')
}

/// Whether `c` is an ASCII letter or digit.
pub fn ascii_alphanumeric(c: char) -> (r: bool)
    ensures
        r == is_ascii_alphanumeric(c),
{
    ascii_digit(c) || ascii_alphabetic(c)
}

/// The lowercase mappings of `chars[start..end]`, one after another.
pub open spec fn lowered(chars: Seq<char>, start: int, end: int) -> Seq<char>
    decreases end - start,
{
    if end <= start {
        Seq::empty()
    } else {
        lowered(chars, start, end - 1) + lowercase_of(chars[end - 1])
    }
}

/// Whether the character sequence `w` spells `word`.
pub fn spells(w: &[char], word: &str) -> (r: bool)
    ensures
        r == (w@ == word@),
{
    let n = word.unicode_len();
    if w.len() != n {
        return false;
    }
    let mut k: usize = 0;
    while k < n
        invariant
            n == word@.len(),
            w@.len() == n,
            k <= n,
            forall|m: int| 0 <= m < k ==> w@[m] == word@[m],
        decreases n - k,
    {
        if w[k] != word.get_char(k) {
            return false;
        }
        k += 1;
    }
    assert(w@ =~= word@);
    true
}

} // verus!
