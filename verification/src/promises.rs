//! What the educator promises of quotes, elisions and protected elements,
//! stated over inputs and results.
use vstd::prelude::*;
use crate::chars::{ascii_lowercase, lowered, EMDASH, ENDASH, LDQUO, LSQUO, RDQUO, RSQUO};
use crate::educator::{applied, html_educated, protection_after, Settings};
use crate::html::{
    alphanumeric_run_end, is_protected_name, next_tag_from, opens_tag, self_closing, starts_comment,
    tag_close, tag_end, tag_name_of,
};
use crate::quotes::{
    alphabetic_run_end, elision_at, elision_word, lemma_quotes_educated_upto_shape, last_or,
    quote_glyph, quotes_educated, quotes_educated_upto,
};

verus! {

/// The characters after which a straight quote opens: the Unicode
/// `White_Space` characters (tab, line feed, vertical tab, form feed, carriage
/// return, space, next line, no-break space, ogham space mark, the spaces from
/// en quad to hair space, line and paragraph separators, narrow no-break
/// space, medium mathematical space, ideographic space), an opening
/// parenthesis, bracket or brace, an en or em dash, and a left single quote.
pub open spec fn opening_context(c: char) -> bool {
    ||| c == '\t'
    ||| c == '\n'
    ||| c == '\u{b}'
    ||| c == '\u{c}'
    ||| c == '\r'
    ||| c == ' '
    ||| c == '\u{85}'
    ||| c == '\u{a0}'
    ||| c == '\u{1680}'
    ||| c == '\u{2000}'
    ||| c == '\u{2001}'
    ||| c == '\u{2002}'
    ||| c == '\u{2003}'
    ||| c == '\u{2004}'
    ||| c == '\u{2005}'
    ||| c == '\u{2006}'
    ||| c == '\u{2007}'
    ||| c == '\u{2008}'
    ||| c == '\u{2009}'
    ||| c == '\u{200a}'
    ||| c == '\u{2028}'
    ||| c == '\u{2029}'
    ||| c == '\u{202f}'
    ||| c == '\u{205f}'
    ||| c == '\u{3000}'
    ||| c == '('
    ||| c == '['
    ||| c == '{'
    ||| c == ENDASH
    ||| c == EMDASH
    ||| c == LSQUO
}

/// What comes right before position `i` of `s` opens a quote: `i` is the start
/// and the context `prev` is nothing or an opening character, or the
/// character before `i` is an opening character.
pub open spec fn opens_at(s: Seq<char>, prev: Option<char>, i: int) -> bool {
    if i == 0 {
        match prev {
            None => true,
            Some(c) => opening_context(c),
        }
    } else {
        opening_context(s[i - 1])
    }
}

/// An ASCII letter.
pub open spec fn ascii_letter(c: char) -> bool {
    ('a' <= c && c <= 'z') || ('A' <= c && c <= 'Z')
}

/// The common English elisions taken as apostrophes, in lowercase.
pub open spec fn listed_elision(w: Seq<char>) -> bool {
    ||| w == seq!['t', 'i', 's']
    ||| w == seq!['t', 'w', 'a', 's']
    ||| w == seq!['t', 'w', 'e', 'r', 'e']
    ||| w == seq!['t', 'w', 'o', 'u', 'l', 'd']
    ||| w == seq!['t', 'i', 'l']
    ||| w == seq!['b', 'o', 'u', 't']
    ||| w == seq!['c', 'a', 'u', 's', 'e']
    ||| w == seq!['r', 'o', 'u', 'n', 'd']
    ||| w == seq!['e', 'm']
    ||| w == seq!['n']
    ||| w == seq!['c', 'e', 'p', 't']
    ||| w == seq!['g', 'a', 'i', 'n', 's', 't']
    ||| w == seq!['n', 'e', 'a', 't', 'h']
    ||| w == seq!['n', 'o', 't', 'h', 'e', 'r']
    ||| w == seq!['f', 'r', 'a', 'i', 'd']
    ||| w == seq!['m', 'o', 'n', 'g', 's', 't']
    ||| w == seq!['t', 'w', 'e', 'e', 'n']
}

/// `s[i + 1..]` begins with the word `w` in any ASCII letter case, and the word
/// ends there: at the end of `s` or before an ASCII character that is no
/// letter.
pub open spec fn word_follows(s: Seq<char>, i: int, w: Seq<char>) -> bool {
    &&& 0 <= i
    &&& i + 1 + w.len() <= s.len()
    &&& forall|k: int|
        0 <= k < w.len() ==> ascii_letter(#[trigger] s[i + 1 + k]) && ascii_lowercase(s[i + 1 + k])
            == w[k]
    &&& i + 1 + w.len() == s.len() || (s[i + 1 + w.len()] <= '\x7f' && !ascii_letter(
        s[i + 1 + w.len()],
    ))
}

/// Earlier output of quote education does not change with later characters.
proof fn lemma_quotes_prefix_stable(s: Seq<char>, prev: Option<char>, i: int, n: nat)
    requires
        0 <= i < n <= s.len(),
    ensures
        quotes_educated_upto(s, prev, n)[i] == quotes_educated_upto(s, prev, (i + 1) as nat)[i],
    decreases n,
{
    if n > i + 1 {
        lemma_quotes_prefix_stable(s, prev, i, (n - 1) as nat);
        lemma_quotes_educated_upto_shape(s, prev, (n - 1) as nat);
    }
}

/// The educated character at `i` is decided by the character there and the
/// one emitted before it: the context `prev` at the start, and otherwise the
/// character before, when that is no straight quote.
proof fn lemma_quotes_educated_at(s: Seq<char>, prev: Option<char>, i: int)
    requires
        0 <= i < s.len(),
        i > 0 ==> s[i - 1] != '"' && s[i - 1] != '\'',
    ensures
        quotes_educated(s, prev)[i] == quote_glyph(
            s[i],
            if i == 0 {
                prev
            } else {
                Some(s[i - 1])
            },
            s,
            i,
        ),
{
    lemma_quotes_prefix_stable(s, prev, i, s.len());
    lemma_quotes_educated_upto_shape(s, prev, i as nat);
    if i > 0 {
        assert(quotes_educated_upto(s, prev, i as nat)[i - 1] == s[i - 1]);
    }
}

/// A straight double quote that follows an opening context becomes a left
/// double quote: after whitespace of any kind (a line feed among it), an
/// opening bracket, an en or em dash, a left single quote, or at the start.
pub proof fn law_double_quote_opens(s: Seq<char>, prev: Option<char>, i: int)
    requires
        0 <= i < s.len(),
        s[i] == '"',
        opens_at(s, prev, i),
    ensures
        quotes_educated(s, prev)[i] == LDQUO,
{
    lemma_quotes_educated_at(s, prev, i);
}

/// A straight double quote that follows anything but an opening context becomes
/// a right double quote: after a letter, a digit, closing punctuation, or a
/// left double quote (so an empty pair `""` closes).
pub proof fn law_double_quote_closes(s: Seq<char>, prev: Option<char>, i: int)
    requires
        0 <= i < s.len(),
        s[i] == '"',
        i == 0 ==> (prev matches Some(c) && !opening_context(c)),
        i > 0 ==> !opening_context(s[i - 1]) && s[i - 1] != '"' && s[i - 1] != '\'',
    ensures
        quotes_educated(s, prev)[i] == RDQUO,
{
    lemma_quotes_educated_at(s, prev, i);
}

/// Over a word of ASCII letters, the alphabetic run ends where the word ends.
proof fn lemma_word_run_end(s: Seq<char>, i: int, w: Seq<char>, k: int)
    requires
        word_follows(s, i, w),
        0 <= k <= w.len(),
    ensures
        alphabetic_run_end(s, i + 1 + k) == i + 1 + w.len(),
    decreases w.len() - k,
{
    if k < w.len() {
        assert(ascii_letter(s[i + 1 + k]));
        lemma_word_run_end(s, i, w, k + 1);
    }
}

/// A word of ASCII letters lowercases to `w`.
proof fn lemma_word_lowered(s: Seq<char>, i: int, w: Seq<char>, k: int)
    requires
        word_follows(s, i, w),
        0 <= k <= w.len(),
    ensures
        lowered(s, i + 1, i + 1 + k) == w.take(k),
    decreases k,
{
    if k > 0 {
        lemma_word_lowered(s, i, w, k - 1);
        assert(ascii_letter(s[i + 1 + (k - 1)]));
        assert(w.take(k) =~= w.take(k - 1).push(w[k - 1]));
    } else {
        assert(w.take(0) =~= Seq::<char>::empty());
    }
}

/// The known elisions are exactly the listed words.
proof fn lemma_elision_word_listed(w: Seq<char>)
    ensures
        elision_word(w) == listed_elision(w),
{
    reveal_strlit("tis");
    reveal_strlit("twas");
    reveal_strlit("twere");
    reveal_strlit("twould");
    reveal_strlit("til");
    reveal_strlit("bout");
    reveal_strlit("cause");
    reveal_strlit("round");
    reveal_strlit("em");
    reveal_strlit("n");
    reveal_strlit("cept");
    reveal_strlit("gainst");
    reveal_strlit("neath");
    reveal_strlit("nother");
    reveal_strlit("fraid");
    reveal_strlit("mongst");
    reveal_strlit("tween");
    broadcast use vstd::string::group_string_axioms;
    assert("tis"@ =~= seq!['t', 'i', 's']);
    assert("twas"@ =~= seq!['t', 'w', 'a', 's']);
    assert("twere"@ =~= seq!['t', 'w', 'e', 'r', 'e']);
    assert("twould"@ =~= seq!['t', 'w', 'o', 'u', 'l', 'd']);
    assert("til"@ =~= seq!['t', 'i', 'l']);
    assert("bout"@ =~= seq!['b', 'o', 'u', 't']);
    assert("cause"@ =~= seq!['c', 'a', 'u', 's', 'e']);
    assert("round"@ =~= seq!['r', 'o', 'u', 'n', 'd']);
    assert("em"@ =~= seq!['e', 'm']);
    assert("n"@ =~= seq!['n']);
    assert("cept"@ =~= seq!['c', 'e', 'p', 't']);
    assert("gainst"@ =~= seq!['g', 'a', 'i', 'n', 's', 't']);
    assert("neath"@ =~= seq!['n', 'e', 'a', 't', 'h']);
    assert("nother"@ =~= seq!['n', 'o', 't', 'h', 'e', 'r']);
    assert("fraid"@ =~= seq!['f', 'r', 'a', 'i', 'd']);
    assert("mongst"@ =~= seq!['m', 'o', 'n', 'g', 's', 't']);
    assert("tween"@ =~= seq!['t', 'w', 'e', 'e', 'n']);
}

/// The single quote at `i`, in an opening context and followed by the word `w`,
/// is educated as its word decides.
proof fn lemma_single_quote_before_word(s: Seq<char>, prev: Option<char>, i: int, w: Seq<char>)
    requires
        0 <= i < s.len(),
        s[i] == '\'',
        opens_at(s, prev, i),
        word_follows(s, i, w),
        w.len() > 0,
        i == 0 ==> prev != Some(LSQUO),
        i > 0 ==> s[i - 1] != LSQUO,
    ensures
        quotes_educated(s, prev)[i] == if listed_elision(w) {
            RSQUO
        } else {
            LSQUO
        },
{
    lemma_quotes_educated_at(s, prev, i);
    lemma_word_run_end(s, i, w, 0);
    lemma_word_lowered(s, i, w, w.len() as int);
    assert(w.take(w.len() as int) =~= w);
    assert(ascii_letter(s[i + 1 + 0]));
    assert(elision_at(s, i + 1) == elision_word(w));
    lemma_elision_word_listed(w);
}

/// A straight single quote in an opening context before one of the listed
/// elisions, in any letter case, is an apostrophe: `'Tis`, `'twas`, `'em`,
/// `'n'` take a right single quote.
pub proof fn law_elision_apostrophe(s: Seq<char>, prev: Option<char>, i: int, w: Seq<char>)
    requires
        0 <= i < s.len(),
        s[i] == '\'',
        opens_at(s, prev, i),
        word_follows(s, i, w),
        listed_elision(w),
    ensures
        quotes_educated(s, prev)[i] == RSQUO,
{
    if opens_at(s, prev, i) && !(if i == 0 { prev == Some(LSQUO) } else { s[i - 1] == LSQUO }) {
        lemma_single_quote_before_word(s, prev, i, w);
    } else {
        lemma_quotes_educated_at(s, prev, i);
    }
}

/// A straight single quote in an opening context other than a left single quote,
/// before any other word of ASCII letters, opens a quotation: it becomes a left
/// single quote.
pub proof fn law_single_quote_opens_word(s: Seq<char>, prev: Option<char>, i: int, w: Seq<char>)
    requires
        0 <= i < s.len(),
        s[i] == '\'',
        opens_at(s, prev, i),
        word_follows(s, i, w),
        w.len() > 0,
        !listed_elision(w),
        i == 0 ==> prev != Some(LSQUO),
        i > 0 ==> s[i - 1] != LSQUO,
    ensures
        quotes_educated(s, prev)[i] == LSQUO,
{
    lemma_single_quote_before_word(s, prev, i, w);
}

/// The elements whose content is left as it is: pre, code, kbd, script,
/// style, math and textarea.
pub open spec fn protected_element(n: Seq<char>) -> bool {
    ||| n == seq!['p', 'r', 'e']
    ||| n == seq!['c', 'o', 'd', 'e']
    ||| n == seq!['k', 'b', 'd']
    ||| n == seq!['s', 'c', 'r', 'i', 'p', 't']
    ||| n == seq!['s', 't', 'y', 'l', 'e']
    ||| n == seq!['m', 'a', 't', 'h']
    ||| n == seq!['t', 'e', 'x', 't', 'a', 'r', 'e', 'a']
}

/// A lowercase ASCII word.
pub open spec fn lowercase_word(n: Seq<char>) -> bool {
    n.len() > 0 && forall|k: int| 0 <= k < n.len() ==> 'a' <= #[trigger] n[k] && n[k] <= 'z'
}

proof fn lemma_protected_element_names(n: Seq<char>)
    ensures
        protected_element(n) ==> lowercase_word(n),
        is_protected_name(n) == protected_element(n),
{
    reveal_strlit("pre");
    reveal_strlit("code");
    reveal_strlit("kbd");
    reveal_strlit("script");
    reveal_strlit("style");
    reveal_strlit("math");
    reveal_strlit("textarea");
    broadcast use vstd::string::group_string_axioms;
    assert("pre"@ =~= seq!['p', 'r', 'e']);
    assert("code"@ =~= seq!['c', 'o', 'd', 'e']);
    assert("kbd"@ =~= seq!['k', 'b', 'd']);
    assert("script"@ =~= seq!['s', 'c', 'r', 'i', 'p', 't']);
    assert("style"@ =~= seq!['s', 't', 'y', 'l', 'e']);
    assert("math"@ =~= seq!['m', 'a', 't', 'h']);
    assert("textarea"@ =~= seq!['t', 'e', 'x', 't', 'a', 'r', 'e', 'a']);
}

/// A tag's `>` is the first `>` when nothing before it is a quote.
proof fn lemma_tag_close_at(x: Seq<char>, j: int, m: int)
    requires
        0 <= j <= m < x.len(),
        x[m] == '>',
        forall|k: int| j <= k < m ==> #[trigger] x[k] != '>' && x[k] != '"' && x[k] != '\'',
    ensures
        tag_close(x, j, None) == m + 1,
    decreases m - j,
{
    if j < m {
        lemma_tag_close_at(x, j + 1, m);
    }
}

/// A lowercase word read as a tag name: the name ends with it and is it.
proof fn lemma_name_run(x: Seq<char>, from: int, n: Seq<char>, end: int, k: int)
    requires
        lowercase_word(n),
        0 <= from,
        from + n.len() <= end <= x.len(),
        forall|m: int| 0 <= m < n.len() ==> #[trigger] x[from + m] == n[m],
        from + n.len() < end ==> !crate::chars::is_ascii_alphanumeric(x[from + n.len()]),
        0 <= k <= n.len(),
    ensures
        alphanumeric_run_end(x, from + k, end) == from + n.len(),
        lowered(x, from, from + k) == n.take(k),
    decreases n.len() - k,
{
    if k < n.len() {
        assert(x[from + k] == n[k]);
        lemma_name_run(x, from, n, end, k + 1);
    }
    lemma_name_lowered(x, from, n, k);
}

proof fn lemma_name_lowered(x: Seq<char>, from: int, n: Seq<char>, k: int)
    requires
        lowercase_word(n),
        0 <= from,
        from + n.len() <= x.len(),
        forall|m: int| 0 <= m < n.len() ==> #[trigger] x[from + m] == n[m],
        0 <= k <= n.len(),
    ensures
        lowered(x, from, from + k) == n.take(k),
    decreases k,
{
    if k > 0 {
        lemma_name_lowered(x, from, n, k - 1);
        assert(x[from + (k - 1)] == n[k - 1]);
        assert(n.take(k) =~= n.take(k - 1).push(n[k - 1]));
    } else {
        assert(n.take(0) =~= Seq::<char>::empty());
    }
}

/// The text `<n a>t</n>`.
pub open spec fn element(n: Seq<char>, a: Seq<char>, t: Seq<char>) -> Seq<char> {
    seq!['<'] + n + a + seq!['>'] + t + seq!['<', '/'] + n + seq!['>']
}

/// Attributes of an opening tag as the law below takes them: nothing, or a
/// space followed by text with no `>`, quote or `/`.
pub open spec fn plain_attributes(a: Seq<char>) -> bool {
    &&& a.len() == 0 || a[0] == ' '
    &&& forall|k: int|
        0 <= k < a.len() ==> #[trigger] a[k] != '>' && a[k] != '"' && a[k] != '\'' && a[k] != '/'
}

/// Where the parts of `element(n, a, t)` stand.
proof fn lemma_element_layout(n: Seq<char>, a: Seq<char>, t: Seq<char>)
    ensures
        ({
            let s = element(n, a, t);
            let ln = n.len() as int;
            let la = a.len() as int;
            let e = ln + la + 2;
            let c = (e + t.len()) as int;
            &&& s.len() == c + ln + 3
            &&& s[0] == '<'
            &&& forall|k: int| 0 <= k < ln ==> #[trigger] s[1 + k] == n[k]
            &&& forall|k: int| 0 <= k < la ==> #[trigger] s[1 + ln + k] == a[k]
            &&& s[e - 1] == '>'
            &&& forall|k: int| 0 <= k < t.len() ==> #[trigger] s[e + k] == t[k]
            &&& s[c] == '<'
            &&& s[c + 1] == '/'
            &&& forall|k: int| 0 <= k < ln ==> #[trigger] s[c + 2 + k] == n[k]
            &&& s[c + ln + 2] == '>'
            &&& s.subrange(e, c) == t
        }),
{
    let s = element(n, a, t);
    let e = (n.len() + a.len() + 2) as int;
    assert(s.subrange(e, (e + t.len()) as int) =~= t);
}

/// The opening tag of an element ends after its `>`, and opens a protected
/// element exactly when the name is one of the protected ones.
proof fn lemma_element_open(n: Seq<char>, a: Seq<char>, t: Seq<char>)
    requires
        lowercase_word(n),
        plain_attributes(a),
    ensures
        opens_tag(element(n, a, t), 0),
        tag_end(element(n, a, t), 0) == n.len() + a.len() + 2,
        protection_after(element(n, a, t), 0, (n.len() + a.len() + 2) as int, 0) == if protected_element(n) {
            1nat
        } else {
            0nat
        },
{
    lemma_protected_element_names(n);
    lemma_element_layout(n, a, t);
    let s = element(n, a, t);
    let ln = n.len() as int;
    let la = a.len() as int;
    let e = ln + la + 2;
    assert(s[1 + 0int] == n[0]);
    assert(opens_tag(s, 0));
    assert(!starts_comment(s, 0)) by {
        assert(s.subrange(0, 4)[1] == s[1]);
    }
    assert forall|k: int| 1 <= k < e - 1 implies #[trigger] s[k] != '>' && s[k] != '"' && s[k]
        != '\'' by {
        if k < 1 + ln {
            assert(s[1 + (k - 1)] == n[k - 1]);
        } else {
            assert(s[1 + ln + (k - 1 - ln)] == a[k - 1 - ln]);
        }
    }
    lemma_tag_close_at(s, 1, e - 1);
    if la > 0 {
        assert(s[1 + ln + 0] == a[0]);
    }
    lemma_name_run(s, 1, n, e, 0);
    lemma_name_lowered(s, 1, n, ln);
    assert(n.take(ln) =~= n);
    assert(tag_name_of(s, 0, e) == Some((n, false)));
    assert(!self_closing(s, e)) by {
        if la > 0 {
            assert(s[1 + ln + (la - 1)] == a[la - 1]);
        } else {
            assert(s[1 + (ln - 1)] == n[ln - 1]);
        }
    }
}

/// The closing tag of an element is kept, and nothing follows it.
proof fn lemma_element_close(
    o: Settings,
    n: Seq<char>,
    a: Seq<char>,
    t: Seq<char>,
    p: Option<char>,
    q: nat,
)
    requires
        lowercase_word(n),
    ensures
        ({
            let s = element(n, a, t);
            let c = (n.len() + a.len() + 2 + t.len()) as int;
            html_educated(o, s, c, p, q) == s.subrange(c, s.len() as int)
        }),
{
    lemma_protected_element_names(n);
    lemma_element_layout(n, a, t);
    let s = element(n, a, t);
    let ln = n.len() as int;
    let c = (ln + a.len() + 2 + t.len()) as int;
    let total = s.len() as int;
    assert(opens_tag(s, c));
    assert(!starts_comment(s, c)) by {
        assert(s.subrange(c, c + 4)[1] == s[c + 1]);
    }
    assert forall|k: int| c + 1 <= k < total - 1 implies #[trigger] s[k] != '>' && s[k] != '"'
        && s[k] != '\'' by {
        if k > c + 1 {
            assert(s[c + 2 + (k - c - 2)] == n[k - c - 2]);
        }
    }
    lemma_tag_close_at(s, c + 1, total - 1);
    assert(tag_end(s, c) == total);
    lemma_name_run(s, c + 2, n, total, 0);
    lemma_name_lowered(s, c + 2, n, ln);
    assert(n.take(ln) =~= n);
    assert(tag_name_of(s, c, total) == Some((n, true)));
    assert(html_educated(o, s, total, p, protection_after(s, c, total, q)) == Seq::<char>::empty());
    assert(s.subrange(c, total) + Seq::<char>::empty() =~= s.subrange(c, total));
}

/// The content of a protected element is kept, and so is what follows it.
proof fn lemma_element_content(o: Settings, n: Seq<char>, a: Seq<char>, t: Seq<char>)
    requires
        protected_element(n),
        forall|k: int| 0 <= k < t.len() ==> #[trigger] t[k] != '<',
    ensures
        ({
            let s = element(n, a, t);
            let e = (n.len() + a.len() + 2) as int;
            html_educated(o, s, e, None, 1) == s.subrange(e, s.len() as int)
        }),
{
    lemma_protected_element_names(n);
    lemma_element_layout(n, a, t);
    let s = element(n, a, t);
    let e = (n.len() + a.len() + 2) as int;
    let c = (e + t.len()) as int;
    let total = s.len() as int;
    if t.len() > 0 {
        assert(s[e + 0int] == t[0]);
        assert(!opens_tag(s, e));
        assert forall|m: int| e + 1 <= m < c implies !#[trigger] opens_tag(s, m) by {
            assert(s[e + (m - e)] == t[m - e]);
        }
        assert(opens_tag(s, c));
        lemma_next_tag_from_first(s, e + 1, c);
        lemma_element_close(o, n, a, t, Some(t.last()), 1);
        assert(html_educated(o, s, e, None, 1) == t + html_educated(o, s, c, Some(t.last()), 1));
        assert(t + s.subrange(c, total) =~= s.subrange(e, total));
    } else {
        lemma_element_close(o, n, a, t, None, 1);
    }
}

/// In HTML mode, a protected element (pre, code, kbd, script, style, math or
/// textarea), whose opening tag may carry attributes, keeps its text content
/// exactly as it is: the whole element comes out unchanged.
pub proof fn law_protected_element_kept(o: Settings, n: Seq<char>, a: Seq<char>, t: Seq<char>)
    requires
        o.html,
        protected_element(n),
        plain_attributes(a),
        forall|k: int| 0 <= k < t.len() ==> #[trigger] t[k] != '<',
    ensures
        applied(o, element(n, a, t)) == element(n, a, t),
{
    let s = element(n, a, t);
    let e = (n.len() + a.len() + 2) as int;
    lemma_protected_element_names(n);
    lemma_element_layout(n, a, t);
    lemma_element_open(n, a, t);
    lemma_element_content(o, n, a, t);
    assert(html_educated(o, s, 0, None, 0) == s.subrange(0, e) + html_educated(o, s, e, None, 1));
    assert(s.subrange(0, e) + s.subrange(e, s.len() as int) =~= s);
}

/// In HTML mode, any other element named by a lowercase ASCII word, its opening
/// tag possibly carrying attributes, has its text educated as if it stood
/// alone: the tags are copied and the text between them is educated as one
/// run, from the start of the quote context.
#[verifier::rlimit(30)]
pub proof fn law_unprotected_element_educated(o: Settings, n: Seq<char>, a: Seq<char>, t: Seq<char>)
    requires
        o.html,
        lowercase_word(n),
        !protected_element(n),
        plain_attributes(a),
        forall|k: int| 0 <= k < t.len() ==> #[trigger] t[k] != '<',
    ensures
        ({
            let s = element(n, a, t);
            let e = (n.len() + a.len() + 2) as int;
            let c = (e + t.len()) as int;
            applied(o, s) == s.subrange(0, e) + html_educated(o, t, 0, None, 0) + s.subrange(
                c,
                s.len() as int,
            )
        }),
{
    let s = element(n, a, t);
    let e = (n.len() + a.len() + 2) as int;
    let c = (e + t.len()) as int;
    let total = s.len() as int;
    lemma_element_layout(n, a, t);
    lemma_element_open(n, a, t);
    crate::laws::lemma_html_single_run(o, t);
    assert(html_educated(o, s, 0, None, 0) == s.subrange(0, e) + html_educated(o, s, e, None, 0));
    if t.len() > 0 {
        assert(s[e + 0int] == t[0]);
        assert(!opens_tag(s, e));
        assert forall|m: int| e + 1 <= m < c implies !#[trigger] opens_tag(s, m) by {
            assert(s[e + (m - e)] == t[m - e]);
        }
        assert(opens_tag(s, c));
        lemma_next_tag_from_first(s, e + 1, c);
        let educated = crate::educator::run_educated(o, t, None);
        lemma_element_close(o, n, a, t, last_or(educated, None), 0);
        assert(html_educated(o, s, e, None, 0) == educated + html_educated(
            o,
            s,
            c,
            last_or(educated, None),
            0,
        ));
    } else {
        lemma_element_close(o, n, a, t, None, 0);
        assert(html_educated(o, t, 0, None, 0) == Seq::<char>::empty());
    }
    assert(s.subrange(0, e) + html_educated(o, t, 0, None, 0) + s.subrange(c, total) =~= s.subrange(0, e) + (html_educated(o, t, 0, None, 0) + s.subrange(c, total)));
}

/// The next tag is the first position where a tag opens.
proof fn lemma_next_tag_from_first(x: Seq<char>, j: int, t: int)
    requires
        0 <= j <= t <= x.len(),
        forall|m: int| j <= m < t ==> !#[trigger] opens_tag(x, m),
        t == x.len() || opens_tag(x, t),
    ensures
        next_tag_from(x, j) == t,
    decreases t - j,
{
    if j < t {
        lemma_next_tag_from_first(x, j + 1, t);
    }
}

} // verus!
