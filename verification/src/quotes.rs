//! Education of straight quotes into curly quotes.
use vstd::prelude::*;
use crate::replace::{absences_kept, is_ascii_seq, occurs_at, occurs_in};
use crate::chars::{
    ascii_digit, is_alphabetic, is_alphabetic_char, is_ascii_digit, is_white_space, is_whitespace,
    lowered, spells, to_lowercase, EMDASH, ENDASH, LDQUO, LSQUO, RDQUO, RSQUO,
};

verus! {

/// Whether a quote that follows the emitted character `prev` (`None` at the very
/// start) opens: after whitespace, an opening bracket, a dash or an opening quote.
pub open spec fn opens_after(prev: Option<char>) -> bool {
    match prev {
        None => true,
        Some(c) => is_white_space(c) || c == '(' || c == '[' || c == '{' || c == EMDASH
            || c == ENDASH || c == LDQUO || c == LSQUO,
    }
}

/// The common English elisions whose leading apostrophe is a closing single
/// quote, spelled in lowercase without the apostrophe.
pub open spec fn elision_word(w: Seq<char>) -> bool {
    ||| w == "tis"@
    ||| w == "twas"@
    ||| w == "twere"@
    ||| w == "twould"@
    ||| w == "til"@
    ||| w == "bout"@
    ||| w == "cause"@
    ||| w == "round"@
    ||| w == "em"@
    ||| w == "n"@
    ||| w == "cept"@
    ||| w == "gainst"@
    ||| w == "neath"@
    ||| w == "nother"@
    ||| w == "fraid"@
    ||| w == "mongst"@
    ||| w == "tween"@
}

/// The index just past the longest run of alphabetic characters of `chars`
/// that starts at `start`.
pub open spec fn alphabetic_run_end(chars: Seq<char>, start: int) -> int
    decreases chars.len() - start,
{
    if 0 <= start < chars.len() && is_alphabetic_char(chars[start]) {
        alphabetic_run_end(chars, start + 1)
    } else {
        start
    }
}

/// Whether the alphabetic word of `chars` that starts at `start`, lowercased,
/// is a known elision.
pub open spec fn elision_at(chars: Seq<char>, start: int) -> bool {
    elision_word(lowered(chars, start, alphabetic_run_end(chars, start)))
}

/// The curly form of a straight single quote, from whether the context opens,
/// the character after it, whether that character is alphabetic, and whether
/// the word it starts is an elision.
pub open spec fn single_quote_choice(
    opens: bool,
    next: Option<char>,
    next_alphabetic: bool,
    next_elision: bool,
) -> char {
    if !opens {
        RSQUO
    } else {
        match next {
            Some(n) => if is_ascii_digit(n) {
                RSQUO
            } else if next_alphabetic {
                if next_elision {
                    RSQUO
                } else {
                    LSQUO
                }
            } else {
                RSQUO
            },
            None => RSQUO,
        }
    }
}

/// The curly form of the straight single quote at `chars[i]` after the emitted
/// character `prev`.
pub open spec fn single_quote_glyph(prev: Option<char>, chars: Seq<char>, i: int) -> char {
    let has_next = i + 1 < chars.len();
    single_quote_choice(
        opens_after(prev),
        if has_next { Some(chars[i + 1]) } else { None },
        has_next && is_alphabetic_char(chars[i + 1]),
        has_next && elision_at(chars, i + 1),
    )
}

/// What the character `c` at `chars[i]` becomes after the emitted character
/// `prev`: straight quotes are educated, everything else stays.
pub open spec fn quote_glyph(c: char, prev: Option<char>, chars: Seq<char>, i: int) -> char {
    if c == '"' {
        if prev == Some(LDQUO) {
            RDQUO
        } else if opens_after(prev) {
            LDQUO
        } else {
            RDQUO
        }
    } else if c == '\'' {
        if prev == Some(LSQUO) {
            RSQUO
        } else {
            single_quote_glyph(prev, chars, i)
        }
    } else {
        c
    }
}

/// The last character of `s`, or `prev` when `s` is empty.
pub open spec fn last_or(s: Seq<char>, prev: Option<char>) -> Option<char> {
    if s.len() == 0 {
        prev
    } else {
        Some(s.last())
    }
}

/// The first `n` characters of `chars` with their quotes educated, the first
/// one following `prev`.
pub open spec fn quotes_educated_upto(chars: Seq<char>, prev: Option<char>, n: nat) -> Seq<char>
    decreases n,
{
    if n == 0 {
        Seq::empty()
    } else {
        let done = quotes_educated_upto(chars, prev, (n - 1) as nat);
        done.push(quote_glyph(chars[n - 1], last_or(done, prev), chars, n - 1))
    }
}

/// `chars` with its straight quotes educated, the first character following `prev`.
pub open spec fn quotes_educated(chars: Seq<char>, prev: Option<char>) -> Seq<char> {
    quotes_educated_upto(chars, prev, chars.len())
}

/// The curly quotation marks.
pub open spec fn is_curly_quote(c: char) -> bool {
    c == LDQUO || c == RDQUO || c == LSQUO || c == RSQUO
}

/// Quote education keeps every character but the straight quotes, and turns
/// those into curly ones.
pub proof fn lemma_quotes_educated_upto_shape(chars: Seq<char>, prev: Option<char>, n: nat)
    requires
        n <= chars.len(),
    ensures
        quotes_educated_upto(chars, prev, n).len() == n,
        forall|m: int|
            0 <= m < n ==> {
                let c = #[trigger] quotes_educated_upto(chars, prev, n)[m];
                &&& (chars[m] != '"' && chars[m] != '\'') ==> c == chars[m]
                &&& (chars[m] == '"' || chars[m] == '\'') ==> is_curly_quote(c)
            },
    decreases n,
{
    if n > 0 {
        lemma_quotes_educated_upto_shape(chars, prev, (n - 1) as nat);
    }
}

/// `quotes_educated` keeps every character but the straight quotes, and turns
/// those into curly ones.
pub proof fn lemma_quotes_educated_shape(chars: Seq<char>, prev: Option<char>)
    ensures
        quotes_educated(chars, prev).len() == chars.len(),
        forall|m: int|
            0 <= m < chars.len() ==> {
                let c = #[trigger] quotes_educated(chars, prev)[m];
                &&& (chars[m] != '"' && chars[m] != '\'') ==> c == chars[m]
                &&& (chars[m] == '"' || chars[m] == '\'') ==> is_curly_quote(c)
            },
{
    lemma_quotes_educated_upto_shape(chars, prev, chars.len());
}

/// Quote education creates no ASCII pattern.
pub proof fn lemma_quotes_keep_absences(chars: Seq<char>, prev: Option<char>)
    ensures
        absences_kept(chars, quotes_educated(chars, prev)),
{
    let out = quotes_educated(chars, prev);
    lemma_quotes_educated_shape(chars, prev);
    assert forall|p: Seq<char>|
        p.len() > 0 && is_ascii_seq(p) && !occurs_in(chars, p) implies !#[trigger] occurs_in(out, p) by {
        assert forall|k: int| !occurs_at(out, p, k) by {
            if occurs_at(out, p, k) {
                assert forall|i: int| 0 <= i < p.len() implies chars.subrange(k, k + p.len())[i]
                    == p[i] by {
                    assert(out[k + i] == out.subrange(k, k + p.len())[i]);
                    assert(p[i] <= '\x7f');
                }
                assert(chars.subrange(k, k + p.len()) =~= p);
                assert(occurs_at(chars, p, k));
            }
        }
    }
}

/// Quote education leaves no straight quote.
pub proof fn lemma_quotes_leave_none(chars: Seq<char>, prev: Option<char>)
    ensures
        !occurs_in(quotes_educated(chars, prev), seq!['"']),
        !occurs_in(quotes_educated(chars, prev), seq!['\'']),
{
    let out = quotes_educated(chars, prev);
    lemma_quotes_educated_shape(chars, prev);
    assert forall|k: int| !occurs_at(out, seq!['"'], k) && !occurs_at(out, seq!['\''], k) by {
        if 0 <= k < out.len() {
            assert(out.subrange(k, k + 1)[0] == out[k]);
        }
    }
}

/// Text with no straight quote is left as it is.
pub proof fn lemma_quotes_educated_identity(chars: Seq<char>, prev: Option<char>)
    requires
        !occurs_in(chars, seq!['"']),
        !occurs_in(chars, seq!['\'']),
    ensures
        quotes_educated(chars, prev) == chars,
{
    let out = quotes_educated(chars, prev);
    lemma_quotes_educated_shape(chars, prev);
    assert forall|m: int| 0 <= m < chars.len() implies out[m] == chars[m] by {
        assert(chars.subrange(m, m + 1) =~= seq![chars[m]]);
        assert(!occurs_at(chars, seq!['"'], m));
        assert(!occurs_at(chars, seq!['\''], m));
    }
    assert(out =~= chars);
}

/// Whether a quote after `prev` should open rather than close.
pub fn is_open_context(prev: Option<char>) -> (r: bool)
    ensures
        r == opens_after(prev),
{
    match prev {
        None => true,
        Some(c) => is_whitespace(c) || c == '(' || c == '[' || c == '{' || c == EMDASH || c
            == ENDASH || c == LDQUO || c == LSQUO,
    }
}

/// Whether the lowercased word `w` is one of the known elisions.
pub fn is_elision_word(w: &[char]) -> (r: bool)
    ensures
        r == elision_word(w@),
{
    spells(w, "tis") || spells(w, "twas") || spells(w, "twere") || spells(w, "twould") || spells(
        w,
        "til",
    ) || spells(w, "bout") || spells(w, "cause") || spells(w, "round") || spells(w, "em")
        || spells(w, "n") || spells(w, "cept") || spells(w, "gainst") || spells(w, "neath")
        || spells(w, "nother") || spells(w, "fraid") || spells(w, "mongst") || spells(w, "tween")
}

/// Whether the maximal alphabetic run of `chars` at `start` is a known elision.
pub fn is_elision(chars: &[char], start: usize) -> (r: bool)
    ensures
        r == elision_at(chars@, start as int),
{
    let mut word: Vec<char> = Vec::new();
    let mut j = start;
    while j < chars.len() && is_alphabetic(chars[j])
        invariant
            start <= j,
            j == start || j <= chars@.len(),
            word@ == lowered(chars@, start as int, j as int),
            alphabetic_run_end(chars@, start as int) == alphabetic_run_end(chars@, j as int),
        decreases chars.len() - j,
    {
        let mut lower = to_lowercase(chars[j]);
        word.append(&mut lower);
        j += 1;
    }
    is_elision_word(word.as_slice())
}

/// The curly form of a straight single quote; see `single_quote_choice`.
pub fn choose_single_quote(
    opens: bool,
    next: Option<char>,
    next_alphabetic: bool,
    next_elision: bool,
) -> (r: char)
    ensures
        r == single_quote_choice(opens, next, next_alphabetic, next_elision),
{
    if !opens {
        return RSQUO;
    }
    match next {
        Some(n) if ascii_digit(n) => RSQUO,
        Some(_) if next_alphabetic && next_elision => RSQUO,
        Some(_) if next_alphabetic => LSQUO,
        _ => RSQUO,
    }
}

/// Decides the curly form of the straight single quote at `chars[i]`.
pub fn decide_single(prev: Option<char>, chars: &[char], i: usize) -> (r: char)
    ensures
        r == single_quote_glyph(prev, chars@, i as int),
{
    let opens = is_open_context(prev);
    if i < chars.len() && chars.len() - i > 1 {
        let n = chars[i + 1];
        let alphabetic = opens && !ascii_digit(n) && is_alphabetic(n);
        let elision = alphabetic && is_elision(chars, i + 1);
        proof {
            if opens && !is_ascii_digit(n) {
                assert(alphabetic == is_alphabetic_char(n));
                assert(alphabetic ==> elision == elision_at(chars@, i + 1));
            }
        }
        choose_single_quote(opens, Some(n), alphabetic, elision)
    } else {
        choose_single_quote(opens, None, false, false)
    }
}

/// Educates the straight quotes of `s`, each deciding open or close from the
/// character emitted before it; `prev` carries that character into and out of
/// the call.
pub fn educate_quotes(s: &[char], prev: &mut Option<char>) -> (r: Vec<char>)
    ensures
        r@ == quotes_educated(s@, *old(prev)),
        *final(prev) == last_or(r@, *old(prev)),
{
    let ghost start = *prev;
    let mut out: Vec<char> = Vec::new();
    let mut prev_out = *prev;
    let mut i: usize = 0;
    while i < s.len()
        invariant
            i <= s@.len(),
            out@ == quotes_educated_upto(s@, start, i as nat),
            prev_out == last_or(out@, start),
        decreases s.len() - i,
    {
        let c = s[i];
        let educated = if c == '"' {
            if prev_out == Some(LDQUO) {
                RDQUO
            } else if is_open_context(prev_out) {
                LDQUO
            } else {
                RDQUO
            }
        } else if c == '\'' {
            if prev_out == Some(LSQUO) {
                RSQUO
            } else {
                decide_single(prev_out, s, i)
            }
        } else {
            c
        };
        out.push(educated);
        prev_out = Some(educated);
        i += 1;
    }
    *prev = prev_out;
    out
}

} // verus!
