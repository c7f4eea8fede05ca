//! Minimal HTML tag scanning: where tags start and end, and their names.
use vstd::prelude::*;
use crate::chars::{ascii_alphabetic, ascii_alphanumeric, is_ascii_alphabetic, is_ascii_alphanumeric, lowered, spells, to_lowercase};
use crate::replace::{matches_at, occurs_at};

verus! {

/// Whether the character after `chars[i]` lets a `<` there begin a tag: a
/// letter, `/`, `!` or `?`.
pub open spec fn tag_start_after(chars: Seq<char>, i: int) -> bool {
    0 <= i && i + 1 < chars.len() && {
        let c = chars[i + 1];
        is_ascii_alphabetic(c) || c == '/' || c == '!' || c == '?'
    }
}

/// Whether a tag (or comment) begins at `chars[i]`.
pub open spec fn opens_tag(chars: Seq<char>, i: int) -> bool {
    0 <= i < chars.len() && chars[i] == '<' && tag_start_after(chars, i)
}

/// Whether a comment (`<!--`) begins at `chars[i]`.
pub open spec fn starts_comment(chars: Seq<char>, i: int) -> bool {
    occurs_at(chars, seq!['<', '!', '-', '-'], i)
}

/// The index just past the first `-->` that starts at or after `j`, or the
/// length of `chars` when there is none.
pub open spec fn comment_close(chars: Seq<char>, j: int) -> int
    decreases chars.len() - j,
{
    if j >= chars.len() {
        chars.len() as int
    } else if occurs_at(chars, seq!['-', '-', '>'], j) {
        j + 3
    } else {
        comment_close(chars, j + 1)
    }
}

/// The index just past the `>` that closes a tag, scanning from `j` where
/// `quote` is the quote character of the attribute value being skipped, if
/// any; the length of `chars` when no such `>` comes.
pub open spec fn tag_close(chars: Seq<char>, j: int, quote: Option<char>) -> int
    decreases chars.len() - j,
{
    if j >= chars.len() {
        chars.len() as int
    } else {
        match quote {
            Some(q) => if chars[j] == q {
                tag_close(chars, j + 1, None)
            } else {
                tag_close(chars, j + 1, Some(q))
            },
            None => if chars[j] == '>' {
                j + 1
            } else if chars[j] == '"' || chars[j] == '\'' {
                tag_close(chars, j + 1, Some(chars[j]))
            } else {
                tag_close(chars, j + 1, None)
            },
        }
    }
}

/// The index just past the tag or comment that begins at `chars[i]`.
pub open spec fn tag_end(chars: Seq<char>, i: int) -> int {
    if starts_comment(chars, i) {
        comment_close(chars, i + 2)
    } else {
        tag_close(chars, i + 1, None)
    }
}

/// The index of the first tag that begins at or after `j`, or the length of
/// `chars` when none does.
pub open spec fn next_tag_from(chars: Seq<char>, j: int) -> int
    decreases chars.len() - j,
{
    if j >= chars.len() {
        chars.len() as int
    } else if opens_tag(chars, j) {
        j
    } else {
        next_tag_from(chars, j + 1)
    }
}

/// The index just past the ASCII letters and digits of `chars` from `k`, not
/// going past `end`.
pub open spec fn alphanumeric_run_end(chars: Seq<char>, k: int, end: int) -> int
    decreases end - k,
{
    if 0 <= k < end && k < chars.len() && is_ascii_alphanumeric(chars[k]) {
        alphanumeric_run_end(chars, k + 1, end)
    } else {
        k
    }
}

/// The lowercased element name of the tag in `chars[start..end]` and whether
/// it is a closing tag; `None` for comments, doctypes and nameless tags.
pub open spec fn tag_name_of(chars: Seq<char>, start: int, end: int) -> Option<(Seq<char>, bool)> {
    let k = start + 1;
    if k >= end || chars[k] == '!' {
        None
    } else {
        let closing = chars[k] == '/';
        let from = if closing {
            k + 1
        } else {
            k
        };
        let name = lowered(chars, from, alphanumeric_run_end(chars, from, end));
        if name.len() == 0 {
            None
        } else {
            Some((name, closing))
        }
    }
}

/// The elements whose text content is left as it is.
pub open spec fn is_protected_name(name: Seq<char>) -> bool {
    ||| name == "pre"@
    ||| name == "code"@
    ||| name == "kbd"@
    ||| name == "script"@
    ||| name == "style"@
    ||| name == "math"@
    ||| name == "textarea"@
}

/// Whether the tag ending at `end` ends with `/>`.
pub open spec fn self_closing(chars: Seq<char>, end: int) -> bool {
    end >= 2 && chars[end - 1] == '>' && chars[end - 2] == '/'
}

pub proof fn lemma_tag_close_bounds(chars: Seq<char>, j: int, quote: Option<char>)
    requires
        0 <= j <= chars.len(),
    ensures
        j <= tag_close(chars, j, quote) <= chars.len(),
        j < chars.len() ==> j < tag_close(chars, j, quote),
    decreases chars.len() - j,
{
    if j < chars.len() {
        lemma_tag_close_bounds(chars, j + 1, None);
        lemma_tag_close_bounds(chars, j + 1, Some(chars[j]));
        if let Some(q) = quote {
            lemma_tag_close_bounds(chars, j + 1, Some(q));
        }
    }
}

pub proof fn lemma_comment_close_bounds(chars: Seq<char>, j: int)
    requires
        0 <= j <= chars.len(),
    ensures
        j <= comment_close(chars, j) <= chars.len(),
        comment_close(chars, j) < chars.len() ==> j + 3 <= comment_close(chars, j),
    decreases chars.len() - j,
{
    if j < chars.len() {
        lemma_comment_close_bounds(chars, j + 1);
    }
}

/// A tag ends after it begins, and within the text.
pub proof fn lemma_tag_end_bounds(chars: Seq<char>, i: int)
    requires
        opens_tag(chars, i),
    ensures
        i + 2 <= tag_end(chars, i) <= chars.len(),
{
    if starts_comment(chars, i) {
        lemma_comment_close_bounds(chars, i + 2);
    } else {
        lemma_tag_close_bounds(chars, i + 1, None);
    }
}

pub proof fn lemma_next_tag_from_bounds(chars: Seq<char>, j: int)
    requires
        0 <= j <= chars.len(),
    ensures
        j <= next_tag_from(chars, j) <= chars.len(),
        next_tag_from(chars, j) < chars.len() ==> opens_tag(chars, next_tag_from(chars, j)),
    decreases chars.len() - j,
{
    if j < chars.len() && !opens_tag(chars, j) {
        lemma_next_tag_from_bounds(chars, j + 1);
    }
}

/// `w` holds the characters of `u[lo..hi]` at the same positions shifted by `d`.
pub open spec fn agree_on(u: Seq<char>, w: Seq<char>, lo: int, hi: int, d: int) -> bool {
    forall|m: int| lo <= m < hi ==> #[trigger] u[m] == w[m + d]
}

/// Scanning for a tag's `>` reads nothing past where it stops: text that agrees
/// up to there (or agrees to the very end) ends the tag at the same place.
pub proof fn lemma_tag_close_agree(u: Seq<char>, w: Seq<char>, j: int, quote: Option<char>, d: int)
    requires
        0 <= j <= u.len(),
        0 <= j + d,
        tag_close(u, j, quote) + d <= w.len(),
        agree_on(u, w, j, tag_close(u, j, quote), d),
        tag_close(u, j, quote) < u.len() || w.len() == u.len() + d,
    ensures
        tag_close(w, j + d, quote) == tag_close(u, j, quote) + d,
    decreases u.len() - j,
{
    lemma_tag_close_bounds(u, j, quote);
    if j < u.len() {
        assert(u[j] == w[j + d]);
        let c = u[j];
        match quote {
            Some(q) => {
                if c == q {
                    lemma_tag_close_bounds(u, j + 1, None);
                    lemma_tag_close_agree(u, w, j + 1, None, d);
                } else {
                    lemma_tag_close_bounds(u, j + 1, Some(q));
                    lemma_tag_close_agree(u, w, j + 1, Some(q), d);
                }
            },
            None => {
                if c == '>' {
                } else if c == '"' || c == '\'' {
                    lemma_tag_close_bounds(u, j + 1, Some(c));
                    lemma_tag_close_agree(u, w, j + 1, Some(c), d);
                } else {
                    lemma_tag_close_bounds(u, j + 1, None);
                    lemma_tag_close_agree(u, w, j + 1, None, d);
                }
            },
        }
    }
}

/// Scanning for `-->` reads nothing past where it stops.
pub proof fn lemma_comment_close_agree(u: Seq<char>, w: Seq<char>, j: int, d: int)
    requires
        0 <= j <= u.len(),
        0 <= j + d,
        comment_close(u, j) + d <= w.len(),
        agree_on(u, w, j, comment_close(u, j), d),
        comment_close(u, j) < u.len() || w.len() == u.len() + d,
    ensures
        comment_close(w, j + d) == comment_close(u, j) + d,
    decreases u.len() - j,
{
    lemma_comment_close_bounds(u, j);
    let closer = seq!['-', '-', '>'];
    if j < u.len() {
        if occurs_at(u, closer, j) {
            assert(u.subrange(j, j + 3) == w.subrange(j + d, j + d + 3)) by {
                assert(u[j] == w[j + d]);
                assert(u[j + 1] == w[j + 1 + d]);
                assert(u[j + 2] == w[j + 2 + d]);
            }
        } else {
            lemma_comment_close_bounds(u, j + 1);
            if occurs_at(w, closer, j + d) {
                assert(j + 3 <= comment_close(u, j));
                assert(u.subrange(j, j + 3) =~= w.subrange(j + d, j + d + 3)) by {
                    assert(u[j] == w[j + d]);
                    assert(u[j + 1] == w[j + 1 + d]);
                    assert(u[j + 2] == w[j + 2 + d]);
                }
            }
            lemma_comment_close_agree(u, w, j + 1, d);
        }
    }
}

/// Whether a tag opens at a position depends only on the character there and
/// the one after it.
pub proof fn lemma_opens_tag_agree(u: Seq<char>, w: Seq<char>, m: int, d: int)
    requires
        0 <= m < u.len(),
        0 <= m + d < w.len(),
        u[m] == w[m + d],
        (m + 1 < u.len()) == (m + 1 + d < w.len()),
        m + 1 < u.len() ==> u[m + 1] == w[m + 1 + d],
    ensures
        opens_tag(u, m) == opens_tag(w, m + d),
{
}

/// A tag that reads the same ends at the same place.
pub proof fn lemma_tag_end_agree(u: Seq<char>, w: Seq<char>, i: int, d: int)
    requires
        opens_tag(u, i),
        0 <= i + d,
        tag_end(u, i) + d <= w.len(),
        agree_on(u, w, i, tag_end(u, i), d),
        tag_end(u, i) < u.len() || w.len() == u.len() + d,
    ensures
        opens_tag(w, i + d),
        tag_end(w, i + d) == tag_end(u, i) + d,
{
    let e = tag_end(u, i);
    lemma_tag_end_bounds(u, i);
    assert(u[i] == w[i + d]);
    assert(u[i + 1] == w[i + 1 + d]);
    if e >= i + 4 {
        assert(u[i + 2] == w[i + 2 + d]);
        assert(u[i + 3] == w[i + 3 + d]);
        assert(starts_comment(u, i) == starts_comment(w, i + d)) by {
            if starts_comment(u, i) {
                assert(w.subrange(i + d, i + d + 4) =~= u.subrange(i, i + 4));
            }
            if starts_comment(w, i + d) {
                assert(w.subrange(i + d, i + d + 4) =~= u.subrange(i, i + 4));
            }
        }
    } else {
        if starts_comment(u, i) {
            lemma_comment_close_bounds(u, i + 2);
        }
        assert(!starts_comment(u, i));
        if e < u.len() {
            lemma_tag_close_bounds(u, i + 2, None);
            if u[i + 2] == '-' {
                lemma_tag_close_bounds(u, i + 3, None);
            }
            assert(u[i + 2] != '-');
            assert(u[i + 2] == w[i + 2 + d]);
            if i + d + 4 <= w.len() {
                assert(w.subrange(i + d, i + d + 4)[2] == w[i + 2 + d]);
            }
        }
        assert(!starts_comment(w, i + d));
    }
    if starts_comment(u, i) {
        lemma_comment_close_agree(u, w, i + 2, d);
    } else {
        lemma_tag_close_agree(u, w, i + 1, None, d);
    }
}

/// Finding the next tag reads the same in text that agrees to its end.
pub proof fn lemma_next_tag_from_agree(u: Seq<char>, w: Seq<char>, j: int, d: int)
    requires
        0 <= j <= u.len(),
        0 <= j + d,
        w.len() == u.len() + d,
        agree_on(u, w, j, u.len() as int, d),
    ensures
        next_tag_from(w, j + d) == next_tag_from(u, j) + d,
    decreases u.len() - j,
{
    if j < u.len() {
        assert(u[j] == w[j + d]);
        if j + 1 < u.len() {
            assert(u[j + 1] == w[j + 1 + d]);
        }
        lemma_opens_tag_agree(u, w, j, d);
        lemma_next_tag_from_agree(u, w, j + 1, d);
    }
}

proof fn lemma_alphanumeric_run_end_agree(u: Seq<char>, w: Seq<char>, k: int, end: int, d: int)
    requires
        0 <= k <= end <= u.len(),
        0 <= k + d,
        end + d <= w.len(),
        agree_on(u, w, k, end, d),
    ensures
        alphanumeric_run_end(w, k + d, end + d) == alphanumeric_run_end(u, k, end) + d,
        k <= alphanumeric_run_end(u, k, end) <= end,
    decreases end - k,
{
    if k < end {
        assert(u[k] == w[k + d]);
        lemma_alphanumeric_run_end_agree(u, w, k + 1, end, d);
    }
}

proof fn lemma_lowered_agree(u: Seq<char>, w: Seq<char>, a: int, b: int, d: int)
    requires
        0 <= a <= b <= u.len(),
        0 <= a + d,
        b + d <= w.len(),
        agree_on(u, w, a, b, d),
    ensures
        lowered(w, a + d, b + d) == lowered(u, a, b),
    decreases b - a,
{
    if a < b {
        assert(u[b - 1] == w[b - 1 + d]);
        lemma_lowered_agree(u, w, a, b - 1, d);
    }
}

/// A tag's name, and whether it closes an element, depend only on its text.
pub proof fn lemma_tag_name_of_agree(u: Seq<char>, w: Seq<char>, a: int, e: int, d: int)
    requires
        0 <= a < e <= u.len(),
        0 <= a + d,
        e + d <= w.len(),
        agree_on(u, w, a, e, d),
    ensures
        tag_name_of(w, a + d, e + d) == tag_name_of(u, a, e),
        a + 2 <= e ==> self_closing(w, e + d) == self_closing(u, e),
{
    let k = a + 1;
    if k < e {
        assert(u[k] == w[k + d]);
        let from = if u[k] == '/' {
            k + 1
        } else {
            k
        };
        lemma_alphanumeric_run_end_agree(u, w, from, e, d);
        lemma_lowered_agree(u, w, from, alphanumeric_run_end(u, from, e), d);
    }
    if a + 2 <= e {
        assert(u[e - 1] == w[e - 1 + d]);
        assert(u[e - 2] == w[e - 2 + d]);
    }
}

/// Whether `chars[i] == '<'` plausibly begins a tag (followed by a letter, `/`,
/// `!`, or `?`); a `<` followed by anything else is text.
pub fn is_tag_start(chars: &[char], i: usize) -> (r: bool)
    ensures
        r == tag_start_after(chars@, i as int),
{
    if i >= chars.len() || chars.len() - i < 2 {
        return false;
    }
    let c = chars[i + 1];
    ascii_alphabetic(c) || c == '/' || c == '!' || c == '?'
}

/// Reads the tag (or comment) that begins at `chars[i] == '<'`, returning its
/// text and the index just past it.
pub fn read_tag(chars: &[char], i: usize) -> (r: (Vec<char>, usize))
    requires
        i < chars@.len(),
    ensures
        r.1 == tag_end(chars@, i as int),
        r.0@ == chars@.subrange(i as int, r.1 as int),
{
    let len = chars.len();
    let opener = vec!['<', '!', '-', '-'];
    assert(opener@ =~= seq!['<', '!', '-', '-']);
    if len - i >= 4 && matches_at(chars, i, opener.as_slice()) {
        // Search for the closing `-->` from just after `<!`, so abrupt-closing
        // forms `<!-->` and `<!--->` terminate instead of running to the end.
        let closer = vec!['-', '-', '>'];
        assert(closer@ =~= seq!['-', '-', '>']);
        let mut j = i + 2;
        while j < len
            invariant
                len == chars@.len(),
                i + 2 <= j <= len,
                starts_comment(chars@, i as int),
                closer@ == seq!['-', '-', '>'],
                comment_close(chars@, j as int) == comment_close(chars@, i + 2),
            decreases len - j,
        {
            if len - j >= 3 && matches_at(chars, j, closer.as_slice()) {
                let end = j + 3;
                return (vstd::slice::slice_to_vec(vstd::slice::slice_subrange(chars, i, end)), end);
            }
            j += 1;
        }
        return (vstd::slice::slice_to_vec(vstd::slice::slice_subrange(chars, i, len)), len);
    }
    let mut j = i + 1;
    while j < len && chars[j] != '>'
        invariant
            len == chars@.len(),
            i + 1 <= j <= len,
            !starts_comment(chars@, i as int),
            tag_close(chars@, j as int, None) == tag_close(chars@, i + 1, None),
        decreases len - j,
    {
        let c = chars[j];
        let ghost before = j;
        if c == '"' || c == '\'' {
            // Skip a quoted attribute value so a '>' inside it doesn't end the tag.
            j += 1;
            while j < len && chars[j] != c
                invariant
                    len == chars@.len(),
                    before < j <= len,
                    tag_close(chars@, j as int, Some(c)) == tag_close(chars@, i + 1, None),
                decreases len - j,
            {
                j += 1;
            }
        }
        if j < len {
            j += 1;
        }
    }
    if j < len {
        j += 1;  // include the closing '>'
    }
    (vstd::slice::slice_to_vec(vstd::slice::slice_subrange(chars, i, j)), j)
}

/// Whether the lowercased element name `name` is one of the protected elements.
pub fn is_protected(name: &[char]) -> (r: bool)
    ensures
        r == is_protected_name(name@),
{
    spells(name, "pre") || spells(name, "code") || spells(name, "kbd") || spells(name, "script")
        || spells(name, "style") || spells(name, "math") || spells(name, "textarea")
}

/// The lowercased element name of the tag occupying `chars[start..end]` and
/// whether it is a closing tag; `None` for comments and doctypes.
pub fn tag_name(chars: &[char], start: usize, end: usize) -> (r: Option<(Vec<char>, bool)>)
    requires
        end <= chars@.len(),
    ensures
        match (r, tag_name_of(chars@, start as int, end as int)) {
            (Some((name, closing)), Some((spec_name, spec_closing))) => name@ == spec_name
                && closing == spec_closing,
            (None, None) => true,
            _ => false,
        },
{
    if start >= end || end - start < 2 || chars[start + 1] == '!' {
        return None;
    }
    let mut k = start + 1;
    let closing = chars[k] == '/';
    if closing {
        k += 1;
    }
    let ghost from = k as int;
    let mut name: Vec<char> = Vec::new();
    while k < end && ascii_alphanumeric(chars[k])
        invariant
            end <= chars@.len(),
            from <= k <= end,
            name@ == lowered(chars@, from, k as int),
            alphanumeric_run_end(chars@, from, end as int) == alphanumeric_run_end(
                chars@,
                k as int,
                end as int,
            ),
        decreases end - k,
    {
        let mut lower = to_lowercase(chars[k]);
        name.append(&mut lower);
        k += 1;
    }
    if name.len() == 0 {
        None
    } else {
        Some((name, closing))
    }
}

/// Whether the tag ending at `end` is self-closing (`.../>`).
pub fn is_self_closing(chars: &[char], end: usize) -> (r: bool)
    requires
        end <= chars@.len(),
    ensures
        r == self_closing(chars@, end as int),
{
    end >= 2 && chars[end - 1] == '>' && chars[end - 2] == '/'
}

} // verus!
