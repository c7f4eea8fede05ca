//! Properties of the educator as a whole.
use vstd::prelude::*;
use crate::chars::{ELLIPSIS, EMDASH, ENDASH, LDQUO, LSQUO, RDQUO, RSQUO};
use crate::educator::{
    applied, html_educated, protection_after, replacements_educated, run_educated, Settings,
};
use crate::html::{
    agree_on, lemma_next_tag_from_agree, lemma_next_tag_from_bounds, lemma_opens_tag_agree,
    lemma_tag_end_agree, lemma_tag_end_bounds, lemma_tag_name_of_agree, next_tag_from, opens_tag,
    tag_end, tag_close, tag_name_of, is_protected_name, starts_comment, alphanumeric_run_end,
};
use crate::options::{Backticks, Dashes};
use crate::quotes::{
    last_or, lemma_quotes_educated_identity, lemma_quotes_educated_shape,
    lemma_quotes_keep_absences, lemma_quotes_leave_none,
};
use crate::replace::{
    absences_kept, is_ascii_seq, lemma_replace_all_absent, lemma_replace_all_leaves_none,
    lemma_replace_all_map,
    lemma_replace_all_nonempty, lemma_replace_glyph_keeps_absences, occurs_at, occurs_in,
    replace_all,
};
use crate::transforms::{backticks_educated, dashes_educated, ellipses_educated};

verus! {

/// Text in which none of the passes that `o` enables finds anything to change:
/// no `...` or `. . .`, no `--`, no backtick-style quotes and no straight quotes,
/// as far as each is educated.
pub open spec fn settled(o: Settings, s: Seq<char>) -> bool {
    &&& o.ellipses ==> !occurs_in(s, seq!['.', '.', '.']) && !occurs_in(s, seq!['.', ' ', '.', ' ', '.'])
    &&& !(o.dashes is Off) ==> !occurs_in(s, seq!['-', '-'])
    &&& !(o.backticks is Off) ==> !occurs_in(s, seq!['`', '`']) && !occurs_in(s, seq!['\'', '\''])
    &&& o.backticks is All ==> !occurs_in(s, seq!['`']) && !occurs_in(s, seq!['\''])
    &&& o.quotes ==> !occurs_in(s, seq!['"']) && !occurs_in(s, seq!['\''])
}

/// A pattern that does not occur leaves every pattern it begins absent too.
proof fn lemma_absent_extends(s: Seq<char>, p: Seq<char>, q: Seq<char>)
    requires
        p.len() <= q.len(),
        q.take(p.len() as int) == p,
        !occurs_in(s, p),
    ensures
        !occurs_in(s, q),
{
    assert forall|k: int| !occurs_at(s, q, k) by {
        if occurs_at(s, q, k) {
            assert(s.subrange(k, k + p.len()) == q.take(p.len() as int));
            assert(occurs_at(s, p, k));
        }
    }
}

proof fn lemma_absences_kept_trans(s: Seq<char>, t: Seq<char>, u: Seq<char>)
    requires
        absences_kept(s, t),
        absences_kept(t, u),
    ensures
        absences_kept(s, u),
{
}

proof fn lemma_absences_kept_refl(s: Seq<char>)
    ensures
        absences_kept(s, s),
{
}

/// Text in which no pass of `o` finds anything to change is educated into
/// itself, whatever character came before it.
pub proof fn lemma_settled_run_unchanged(o: Settings, s: Seq<char>, prev: Option<char>)
    requires
        settled(o, s),
    ensures
        run_educated(o, s, prev) == s,
{
    if o.ellipses {
        lemma_replace_all_absent(s, seq!['.', '.', '.'], seq![ELLIPSIS]);
        lemma_replace_all_absent(s, seq!['.', ' ', '.', ' ', '.'], seq![ELLIPSIS]);
    }
    assert(ellipses_educated(s) == s ==> (if o.ellipses { ellipses_educated(s) } else { s }) == s);
    if !(o.dashes is Off) {
        assert(seq!['-', '-', '-'].take(2) =~= seq!['-', '-']);
        lemma_absent_extends(s, seq!['-', '-'], seq!['-', '-', '-']);
        let d3 = if o.dashes is Inverted { ENDASH } else { EMDASH };
        let d2 = if o.dashes is OldSchool { ENDASH } else { EMDASH };
        lemma_replace_all_absent(s, seq!['-', '-', '-'], seq![d3]);
        lemma_replace_all_absent(s, seq!['-', '-'], seq![d2]);
    }
    assert(dashes_educated(s, o.dashes) == s);
    if !(o.backticks is Off) {
        lemma_replace_all_absent(s, seq!['`', '`'], seq![LDQUO]);
        lemma_replace_all_absent(s, seq!['\'', '\''], seq![RDQUO]);
        if o.backticks is All {
            lemma_replace_all_absent(s, seq!['`'], seq![LSQUO]);
            lemma_replace_all_absent(s, seq!['\''], seq![RSQUO]);
        }
    }
    assert(backticks_educated(s, o.backticks) == s);
    assert(replacements_educated(o, s) == s);
    if o.quotes {
        lemma_quotes_educated_identity(s, prev);
    }
}

/// What the ellipsis pass leaves: no `...` and no `. . .`.
proof fn lemma_ellipses_settle(s: Seq<char>)
    ensures
        absences_kept(s, ellipses_educated(s)),
        !occurs_in(ellipses_educated(s), seq!['.', '.', '.']),
        !occurs_in(ellipses_educated(s), seq!['.', ' ', '.', ' ', '.']),
{
    let three = seq!['.', '.', '.'];
    let spaced = seq!['.', ' ', '.', ' ', '.'];
    let once = replace_all(s, three, seq![ELLIPSIS]);
    lemma_replace_glyph_keeps_absences(s, three, ELLIPSIS);
    lemma_replace_glyph_keeps_absences(once, spaced, ELLIPSIS);
    lemma_replace_all_leaves_none(s, three, seq![ELLIPSIS]);
    lemma_replace_all_leaves_none(once, spaced, seq![ELLIPSIS]);
    assert(is_ascii_seq(three));
}

/// What the dash pass leaves: no `--` unless dashes are off.
proof fn lemma_dashes_settle(s: Seq<char>, mode: Dashes)
    ensures
        absences_kept(s, dashes_educated(s, mode)),
        !(mode is Off) ==> !occurs_in(dashes_educated(s, mode), seq!['-', '-']),
{
    if mode is Off {
        lemma_absences_kept_refl(s);
    } else {
        let d3 = if mode is Inverted { ENDASH } else { EMDASH };
        let d2 = if mode is OldSchool { ENDASH } else { EMDASH };
        let once = replace_all(s, seq!['-', '-', '-'], seq![d3]);
        lemma_replace_glyph_keeps_absences(s, seq!['-', '-', '-'], d3);
        lemma_replace_glyph_keeps_absences(once, seq!['-', '-'], d2);
        lemma_replace_all_leaves_none(once, seq!['-', '-'], seq![d2]);
        assert(dashes_educated(s, mode) == replace_all(once, seq!['-', '-'], seq![d2]));
    }
}

/// What the backtick pass leaves: no ``` `` ``` or `''`, and in `All` no single
/// backtick or apostrophe.
proof fn lemma_backticks_settle(s: Seq<char>, mode: Backticks)
    ensures
        absences_kept(s, backticks_educated(s, mode)),
        !(mode is Off) ==> !occurs_in(backticks_educated(s, mode), seq!['`', '`'])
            && !occurs_in(backticks_educated(s, mode), seq!['\'', '\'']),
        mode is All ==> !occurs_in(backticks_educated(s, mode), seq!['`'])
            && !occurs_in(backticks_educated(s, mode), seq!['\'']),
{
    if mode is Off {
        lemma_absences_kept_refl(s);
    } else {
        let bb = seq!['`', '`'];
        let aa = seq!['\'', '\''];
        let b = seq!['`'];
        let a = seq!['\''];
        assert(is_ascii_seq(bb));
        assert(is_ascii_seq(aa));
        assert(is_ascii_seq(b));
        let r1 = replace_all(s, bb, seq![LDQUO]);
        let r2 = replace_all(r1, aa, seq![RDQUO]);
        lemma_replace_glyph_keeps_absences(s, bb, LDQUO);
        lemma_replace_glyph_keeps_absences(r1, aa, RDQUO);
        lemma_replace_all_leaves_none(s, bb, seq![LDQUO]);
        lemma_replace_all_leaves_none(r1, aa, seq![RDQUO]);
        lemma_absences_kept_trans(s, r1, r2);
        if mode is All {
            let r3 = replace_all(r2, b, seq![LSQUO]);
            let r4 = replace_all(r3, a, seq![RSQUO]);
            lemma_replace_glyph_keeps_absences(r2, b, LSQUO);
            lemma_replace_glyph_keeps_absences(r3, a, RSQUO);
            lemma_replace_all_leaves_none(r2, b, seq![LSQUO]);
            lemma_replace_all_leaves_none(r3, a, seq![RSQUO]);
            lemma_absences_kept_trans(s, r2, r3);
            lemma_absences_kept_trans(s, r3, r4);
            lemma_absences_kept_trans(r2, r3, r4);
            assert(backticks_educated(s, mode) == r4);
        } else {
            assert(backticks_educated(s, mode) == r2);
        }
    }
}

/// Every educated run is settled: educating it again changes nothing.
pub proof fn lemma_run_educated_settled(o: Settings, s: Seq<char>, prev: Option<char>)
    ensures
        settled(o, run_educated(o, s, prev)),
{
    let s1 = if o.ellipses {
        ellipses_educated(s)
    } else {
        s
    };
    let s2 = dashes_educated(s1, o.dashes);
    let s3 = backticks_educated(s2, o.backticks);
    if o.ellipses {
        lemma_ellipses_settle(s);
    }
    lemma_dashes_settle(s1, o.dashes);
    lemma_backticks_settle(s2, o.backticks);
    lemma_absences_kept_trans(s1, s2, s3);
    let out = run_educated(o, s, prev);
    if o.quotes {
        lemma_quotes_keep_absences(s3, prev);
        lemma_quotes_leave_none(s3, prev);
        lemma_absences_kept_trans(s2, s3, out);
        lemma_absences_kept_trans(s1, s3, out);
    } else {
        lemma_absences_kept_refl(s3);
    }
    assert(is_ascii_seq(seq!['.', '.', '.']));
    assert(is_ascii_seq(seq!['.', ' ', '.', ' ', '.']));
    assert(is_ascii_seq(seq!['-', '-']));
    assert(is_ascii_seq(seq!['`', '`']));
    assert(is_ascii_seq(seq!['\'', '\'']));
    assert(is_ascii_seq(seq!['`']));
}

/// Educating a run twice gives what educating it once gives, whatever
/// character precedes it either time.
pub proof fn law_run_idempotent(o: Settings, s: Seq<char>, prev: Option<char>, again: Option<char>)
    ensures
        run_educated(o, run_educated(o, s, prev), again) == run_educated(o, s, prev),
{
    lemma_run_educated_settled(o, s, prev);
    lemma_settled_run_unchanged(o, run_educated(o, s, prev), again);
}

/// In plain-text mode, applying the educator to its own output changes nothing.
pub proof fn law_plain_text_idempotent(o: Settings, text: Seq<char>)
    requires
        !o.html,
    ensures
        applied(o, applied(o, text)) == applied(o, text),
{
    law_run_idempotent(o, text, None, None);
}

/// Educating a run creates no ASCII pattern that was not there.
pub proof fn lemma_run_keeps_absences(o: Settings, s: Seq<char>, prev: Option<char>)
    ensures
        absences_kept(s, run_educated(o, s, prev)),
{
    let s1 = if o.ellipses {
        ellipses_educated(s)
    } else {
        s
    };
    let s2 = dashes_educated(s1, o.dashes);
    let s3 = backticks_educated(s2, o.backticks);
    if o.ellipses {
        lemma_ellipses_settle(s);
    } else {
        lemma_absences_kept_refl(s);
    }
    lemma_dashes_settle(s1, o.dashes);
    lemma_backticks_settle(s2, o.backticks);
    lemma_absences_kept_trans(s, s1, s2);
    lemma_absences_kept_trans(s, s2, s3);
    if o.quotes {
        lemma_quotes_keep_absences(s3, prev);
        lemma_absences_kept_trans(s, s3, run_educated(o, s, prev));
    }
}

/// A non-empty run stays non-empty when educated.
pub proof fn lemma_run_educated_nonempty(o: Settings, s: Seq<char>, prev: Option<char>)
    requires
        s.len() > 0,
    ensures
        run_educated(o, s, prev).len() > 0,
{
    let s1 = if o.ellipses {
        ellipses_educated(s)
    } else {
        s
    };
    if o.ellipses {
        lemma_replace_all_nonempty(s, seq!['.', '.', '.'], seq![ELLIPSIS]);
        lemma_replace_all_nonempty(
            replace_all(s, seq!['.', '.', '.'], seq![ELLIPSIS]),
            seq!['.', ' ', '.', ' ', '.'],
            seq![ELLIPSIS],
        );
    }
    let d3 = if o.dashes is Inverted { ENDASH } else { EMDASH };
    let d2 = if o.dashes is OldSchool { ENDASH } else { EMDASH };
    lemma_replace_all_nonempty(s1, seq!['-', '-', '-'], seq![d3]);
    lemma_replace_all_nonempty(replace_all(s1, seq!['-', '-', '-'], seq![d3]), seq!['-', '-'], seq![d2]);
    let s2 = dashes_educated(s1, o.dashes);
    let r1 = replace_all(s2, seq!['`', '`'], seq![LDQUO]);
    let r2 = replace_all(r1, seq!['\'', '\''], seq![RDQUO]);
    let r3 = replace_all(r2, seq!['`'], seq![LSQUO]);
    lemma_replace_all_nonempty(s2, seq!['`', '`'], seq![LDQUO]);
    lemma_replace_all_nonempty(r1, seq!['\'', '\''], seq![RDQUO]);
    lemma_replace_all_nonempty(r2, seq!['`'], seq![LSQUO]);
    lemma_replace_all_nonempty(r3, seq!['\''], seq![RSQUO]);
    let s3 = backticks_educated(s2, o.backticks);
    lemma_quotes_educated_shape(s3, prev);
}

/// The two characters `<c`.
pub open spec fn opener(c: char) -> Seq<char> {
    seq!['<', c]
}

/// The characters after a `<` that make it begin a tag.
pub open spec fn is_tag_start_char(c: char) -> bool {
    crate::chars::is_ascii_alphabetic(c) || c == '/' || c == '!' || c == '?'
}

/// No `<` in `s` is followed by a character that would make it begin a tag.
pub open spec fn no_tag_opener(s: Seq<char>) -> bool {
    forall|c: char| is_tag_start_char(c) ==> !#[trigger] occurs_in(s, opener(c))
}

/// The position of the next tag is the first position where a tag opens.
proof fn lemma_next_tag_from_is_first(x: Seq<char>, j: int, t: int)
    requires
        0 <= j <= t <= x.len(),
        forall|m: int| j <= m < t ==> !#[trigger] opens_tag(x, m),
        t == x.len() || opens_tag(x, t),
    ensures
        next_tag_from(x, j) == t,
    decreases t - j,
{
    if j < t {
        lemma_next_tag_from_is_first(x, j + 1, t);
    }
}

/// No tag opens before the next tag.
proof fn lemma_next_tag_from_skips(x: Seq<char>, j: int, m: int)
    requires
        0 <= j <= m < next_tag_from(x, j),
    ensures
        !opens_tag(x, m),
    decreases m - j,
{
    if j < m {
        lemma_next_tag_from_skips(x, j + 1, m);
    }
}

/// A run of text between tags has no `<` that would begin a tag.
proof fn lemma_run_has_no_opener(s: Seq<char>, i: int)
    requires
        0 <= i < s.len(),
        !opens_tag(s, i),
    ensures
        no_tag_opener(s.subrange(i, next_tag_from(s, i + 1))),
{
    lemma_next_tag_from_bounds(s, i + 1);
    let e = next_tag_from(s, i + 1);
    let run = s.subrange(i, e);
    assert forall|c: char| is_tag_start_char(c) implies !#[trigger] occurs_in(run, opener(c)) by {
        assert forall|k: int| !occurs_at(run, opener(c), k) by {
            if occurs_at(run, opener(c), k) {
                assert(run.subrange(k, k + 2)[0] == run[k]);
                assert(run.subrange(k, k + 2)[1] == run[k + 1]);
                if i + k > i {
                    lemma_next_tag_from_skips(s, i + 1, i + k);
                }
                assert(opens_tag(s, i + k));
            }
        }
    }
}

/// Educating a run keeps it free of `<` that would begin a tag.
proof fn lemma_run_keeps_no_opener(o: Settings, s: Seq<char>, prev: Option<char>)
    requires
        no_tag_opener(s),
    ensures
        no_tag_opener(run_educated(o, s, prev)),
{
    lemma_run_keeps_absences(o, s, prev);
    assert forall|c: char| is_tag_start_char(c) implies !#[trigger] occurs_in(
        run_educated(o, s, prev),
        opener(c),
    ) by {
        assert(is_ascii_seq(opener(c)));
    }
}

/// Text made of a run free of tag openers followed by nothing or by a tag has
/// its first tag right after the run.
proof fn lemma_run_then_tag(r: Seq<char>, rest: Seq<char>)
    requires
        r.len() > 0,
        no_tag_opener(r),
        rest.len() == 0 || (rest.len() >= 2 && rest[0] == '<' && is_tag_start_char(rest[1])),
    ensures
        !opens_tag(r + rest, 0),
        next_tag_from(r + rest, 1) == r.len(),
{
    let x = r + rest;
    assert forall|m: int| 0 <= m < r.len() implies !#[trigger] opens_tag(x, m) by {
        if opens_tag(x, m) {
            if m + 1 < r.len() {
                assert(x[m] == r[m]);
                assert(x[m + 1] == r[m + 1]);
                assert(r.subrange(m, m + 2) =~= opener(r[m + 1]));
                assert(occurs_at(r, opener(r[m + 1]), m));
                assert(occurs_in(r, opener(r[m + 1])));
            } else if rest.len() > 0 {
                assert(x[m + 1] == rest[0]);
            }
        }
    }
    if rest.len() > 0 {
        assert(x[r.len() as int] == rest[0]);
        assert(x[r.len() as int + 1] == rest[1]);
        assert(opens_tag(x, r.len() as int));
    }
    lemma_next_tag_from_is_first(x, 1, r.len() as int);
}

/// HTML-aware education of text that agrees to its end reads the same.
pub proof fn lemma_html_agree(
    o: Settings,
    u: Seq<char>,
    i: int,
    w: Seq<char>,
    k: int,
    prev: Option<char>,
    protected: nat,
)
    requires
        0 <= i <= u.len(),
        0 <= k <= w.len(),
        u.len() - i == w.len() - k,
        agree_on(u, w, i, u.len() as int, k - i),
    ensures
        html_educated(o, u, i, prev, protected) == html_educated(o, w, k, prev, protected),
    decreases u.len() - i,
{
    let d = k - i;
    if i < u.len() {
        assert(u[i] == w[k]);
        if i + 1 < u.len() {
            assert(u[i + 1] == w[k + 1]);
        }
        lemma_opens_tag_agree(u, w, i, d);
        if opens_tag(u, i) {
            let e = tag_end(u, i);
            lemma_tag_end_bounds(u, i);
            lemma_tag_end_agree(u, w, i, d);
            lemma_tag_name_of_agree(u, w, i, e, d);
            assert(u.subrange(i, e) =~= w.subrange(k, e + d));
            assert(protection_after(u, i, e, protected) == protection_after(w, k, e + d, protected));
            lemma_html_agree(o, u, e, w, e + d, prev, protection_after(u, i, e, protected));
        } else {
            lemma_next_tag_from_bounds(u, i + 1);
            lemma_next_tag_from_agree(u, w, i + 1, d);
            let e = next_tag_from(u, i + 1);
            let run = u.subrange(i, e);
            assert(run =~= w.subrange(k, e + d));
            lemma_html_agree(o, u, e, w, e + d, Some(run.last()), protected);
            lemma_html_agree(o, u, e, w, e + d, last_or(run_educated(o, run, prev), prev), protected);
        }
    }
}

/// HTML-aware education starting at a tag begins with that tag's first two
/// characters.
proof fn lemma_html_starts_with_tag(o: Settings, s: Seq<char>, e: int, prev: Option<char>, protected: nat)
    requires
        opens_tag(s, e),
    ensures
        html_educated(o, s, e, prev, protected).len() >= 2,
        html_educated(o, s, e, prev, protected)[0] == s[e],
        html_educated(o, s, e, prev, protected)[1] == s[e + 1],
{
    lemma_tag_end_bounds(s, e);
}

/// One step of `lemma_html_settled` at a tag.
proof fn lemma_settled_at_tag(
    o: Settings,
    s: Seq<char>,
    i: int,
    prev: Option<char>,
    protected: nat,
    again: Option<char>,
)
    requires
        0 <= i < s.len(),
        opens_tag(s, i),
        ({
            let rest = html_educated(o, s, tag_end(s, i), prev, protection_after(s, i, tag_end(s, i), protected));
            html_educated(o, rest, 0, again, protection_after(s, i, tag_end(s, i), protected)) == rest
        }),
    ensures
        html_educated(o, html_educated(o, s, i, prev, protected), 0, again, protected)
            == html_educated(o, s, i, prev, protected),
{
    let out = html_educated(o, s, i, prev, protected);
    let e = tag_end(s, i);
    lemma_tag_end_bounds(s, i);
    let after = protection_after(s, i, e, protected);
    let rest = html_educated(o, s, e, prev, after);
    assert(out == s.subrange(i, e) + rest);
    assert(agree_on(s, out, i, e, -i));
    lemma_tag_end_agree(s, out, i, -i);
    lemma_tag_name_of_agree(s, out, i, e, -i);
    assert(protection_after(out, 0, e - i, protected) == after);
    lemma_html_agree(o, out, e - i, rest, 0, again, after);
    assert(out.subrange(0, e - i) =~= s.subrange(i, e));
}

/// The text run of `s` at `i`, as the first pass emits it, and the emitted
/// character that follows it.
pub open spec fn emitted_run(o: Settings, s: Seq<char>, i: int, prev: Option<char>, protected: nat) -> (Seq<char>, Option<char>) {
    let run = s.subrange(i, next_tag_from(s, i + 1));
    if protected > 0 {
        (run, Some(run.last()))
    } else {
        (run_educated(o, run, prev), last_or(run_educated(o, run, prev), prev))
    }
}

/// The context that the second pass carries past an emitted run.
pub open spec fn again_after(o: Settings, educated: Seq<char>, again: Option<char>, protected: nat) -> Option<char> {
    if protected > 0 {
        Some(educated.last())
    } else {
        last_or(run_educated(o, educated, again), again)
    }
}

/// One step of `lemma_html_settled` at a run of text.
proof fn lemma_settled_at_run(
    o: Settings,
    s: Seq<char>,
    i: int,
    prev: Option<char>,
    protected: nat,
    again: Option<char>,
)
    requires
        0 <= i < s.len(),
        !opens_tag(s, i),
        ({
            let (educated, next_prev) = emitted_run(o, s, i, prev, protected);
            let rest = html_educated(o, s, next_tag_from(s, i + 1), next_prev, protected);
            html_educated(o, rest, 0, again_after(o, educated, again, protected), protected) == rest
        }),
    ensures
        html_educated(o, html_educated(o, s, i, prev, protected), 0, again, protected)
            == html_educated(o, s, i, prev, protected),
{
    let out = html_educated(o, s, i, prev, protected);
    lemma_next_tag_from_bounds(s, i + 1);
    let e = next_tag_from(s, i + 1);
    let run = s.subrange(i, e);
    lemma_run_has_no_opener(s, i);
    let (educated, next_prev) = emitted_run(o, s, i, prev, protected);
    let rest = html_educated(o, s, e, next_prev, protected);
    assert(out == educated + rest);
    if protected == 0 {
        lemma_run_keeps_no_opener(o, run, prev);
        lemma_run_educated_nonempty(o, run, prev);
        law_run_idempotent(o, run, prev, again);
    }
    if e < s.len() {
        lemma_html_starts_with_tag(o, s, e, next_prev, protected);
    }
    lemma_run_then_tag(educated, rest);
    assert(out.subrange(0, educated.len() as int) =~= educated);
    let again_next = again_after(o, educated, again, protected);
    lemma_html_agree(o, out, educated.len() as int, rest, 0, again_next, protected);
}

/// The HTML-aware education of `s[i..]` is educated into itself again, from
/// the same count of open protected elements and whatever character came
/// before.
proof fn lemma_html_settled(
    o: Settings,
    s: Seq<char>,
    i: int,
    prev: Option<char>,
    protected: nat,
    again: Option<char>,
)
    requires
        0 <= i <= s.len(),
    ensures
        html_educated(o, html_educated(o, s, i, prev, protected), 0, again, protected)
            == html_educated(o, s, i, prev, protected),
    decreases s.len() - i,
{
    if i < s.len() {
        if opens_tag(s, i) {
            lemma_tag_end_bounds(s, i);
            let e = tag_end(s, i);
            lemma_html_settled(o, s, e, prev, protection_after(s, i, e, protected), again);
            lemma_settled_at_tag(o, s, i, prev, protected, again);
        } else {
            lemma_next_tag_from_bounds(s, i + 1);
            let (educated, next_prev) = emitted_run(o, s, i, prev, protected);
            lemma_html_settled(
                o,
                s,
                next_tag_from(s, i + 1),
                next_prev,
                protected,
                again_after(o, educated, again, protected),
            );
            lemma_settled_at_run(o, s, i, prev, protected, again);
        }
    }
}

/// In HTML mode, applying the educator to its own output changes nothing.
pub proof fn law_html_idempotent(o: Settings, text: Seq<char>)
    requires
        o.html,
    ensures
        applied(o, applied(o, text)) == applied(o, text),
{
    lemma_html_settled(o, text, 0, None, 0, None);
}

/// Applying the educator to its own output changes nothing: already-curly
/// text is left unchanged.
pub proof fn law_idempotent(o: Settings, text: Seq<char>)
    ensures
        applied(o, applied(o, text)) == applied(o, text),
{
    if o.html {
        law_html_idempotent(o, text);
    } else {
        law_plain_text_idempotent(o, text);
    }
}

/// A pattern absent from `s` is absent from every stretch of it.
proof fn lemma_absent_in_subrange(s: Seq<char>, p: Seq<char>, a: int, b: int)
    requires
        0 <= a <= b <= s.len(),
        !occurs_in(s, p),
    ensures
        !occurs_in(s.subrange(a, b), p),
{
    let t = s.subrange(a, b);
    assert forall|k: int| !occurs_at(t, p, k) by {
        if occurs_at(t, p, k) {
            assert(t.subrange(k, k + p.len()) =~= s.subrange(a + k, a + k + p.len()));
            assert(occurs_at(s, p, a + k));
        }
    }
}

/// Every stretch of settled text is settled.
proof fn lemma_settled_subrange(o: Settings, s: Seq<char>, a: int, b: int)
    requires
        0 <= a <= b <= s.len(),
        settled(o, s),
    ensures
        settled(o, s.subrange(a, b)),
{
    if o.ellipses {
        lemma_absent_in_subrange(s, seq!['.', '.', '.'], a, b);
        lemma_absent_in_subrange(s, seq!['.', ' ', '.', ' ', '.'], a, b);
    }
    if !(o.dashes is Off) {
        lemma_absent_in_subrange(s, seq!['-', '-'], a, b);
    }
    if !(o.backticks is Off) {
        lemma_absent_in_subrange(s, seq!['`', '`'], a, b);
        lemma_absent_in_subrange(s, seq!['\'', '\''], a, b);
    }
    if o.backticks is All {
        lemma_absent_in_subrange(s, seq!['`'], a, b);
        lemma_absent_in_subrange(s, seq!['\''], a, b);
    }
    if o.quotes {
        lemma_absent_in_subrange(s, seq!['"'], a, b);
        lemma_absent_in_subrange(s, seq!['\''], a, b);
    }
}

/// HTML-aware education of settled text keeps `s[i..]` as it is.
proof fn lemma_html_settled_unchanged(
    o: Settings,
    s: Seq<char>,
    i: int,
    prev: Option<char>,
    protected: nat,
)
    requires
        0 <= i <= s.len(),
        settled(o, s),
    ensures
        html_educated(o, s, i, prev, protected) == s.subrange(i, s.len() as int),
    decreases s.len() - i,
{
    if i < s.len() {
        if opens_tag(s, i) {
            lemma_tag_end_bounds(s, i);
            let e = tag_end(s, i);
            lemma_html_settled_unchanged(o, s, e, prev, protection_after(s, i, e, protected));
            assert(s.subrange(i, e) + s.subrange(e, s.len() as int) =~= s.subrange(i, s.len() as int));
        } else {
            lemma_next_tag_from_bounds(s, i + 1);
            let e = next_tag_from(s, i + 1);
            let run = s.subrange(i, e);
            lemma_settled_subrange(o, s, i, e);
            lemma_settled_run_unchanged(o, run, prev);
            lemma_html_settled_unchanged(o, s, e, Some(run.last()), protected);
            lemma_html_settled_unchanged(o, s, e, last_or(run, prev), protected);
            assert(run + s.subrange(e, s.len() as int) =~= s.subrange(i, s.len() as int));
        }
    }
}

/// Text in which no enabled pass finds anything to change (already-curly
/// text) is left unchanged.
pub proof fn law_settled_text_unchanged(o: Settings, text: Seq<char>)
    requires
        settled(o, text),
    ensures
        applied(o, text) == text,
{
    if o.html {
        lemma_html_settled_unchanged(o, text, 0, None, 0);
        assert(text.subrange(0, text.len() as int) =~= text);
    } else {
        lemma_settled_run_unchanged(o, text, None);
    }
}

/// With quotes, backtick-style quotes, dashes and ellipses all switched off,
/// the educator returns its input unchanged, in either mode.
pub proof fn law_all_off_identity(o: Settings, text: Seq<char>)
    requires
        !o.quotes,
        o.backticks is Off,
        o.dashes is Off,
        !o.ellipses,
    ensures
        applied(o, text) == text,
{
    law_settled_text_unchanged(o, text);
}

/// An en dash becomes an em dash and an em dash an en dash.
pub open spec fn swap_dashes(c: char) -> char {
    if c == ENDASH {
        EMDASH
    } else if c == EMDASH {
        ENDASH
    } else {
        c
    }
}

/// An en dash becomes an em dash.
pub open spec fn en_to_em(c: char) -> char {
    if c == ENDASH {
        EMDASH
    } else {
        c
    }
}

proof fn lemma_dash_rename(
    s: Seq<char>,
    g: spec_fn(char) -> char,
    triple: char,
    double: char,
)
    requires
        g('-') == '-',
        forall|c: char| #[trigger] g(c) == '-' ==> c == '-',
        s.map_values(g) == s,
    ensures
        replace_all(replace_all(s, seq!['-', '-', '-'], seq![triple]), seq!['-', '-'], seq![double]).map_values(g)
            == replace_all(replace_all(s, seq!['-', '-', '-'], seq![g(triple)]), seq!['-', '-'], seq![g(double)]),
{
    let three = seq!['-', '-', '-'];
    let two = seq!['-', '-'];
    let once = replace_all(s, three, seq![triple]);
    lemma_replace_all_map(s, three, seq![triple], g);
    lemma_replace_all_map(once, two, seq![double], g);
    assert(seq![triple].map_values(g) =~= seq![g(triple)]);
    assert(seq![double].map_values(g) =~= seq![g(double)]);
}

/// On text with no en or em dash, the dash modes differ only in which dash
/// they write: `Inverted` gives the `OldSchool` result with en and em dashes
/// exchanged, and `EmDash` gives it with every en dash made an em dash.
pub proof fn law_dash_modes(s: Seq<char>)
    requires
        forall|i: int| 0 <= i < s.len() ==> #[trigger] s[i] != ENDASH && s[i] != EMDASH,
    ensures
        dashes_educated(s, Dashes::Inverted) == dashes_educated(s, Dashes::OldSchool).map_values(
            |c: char| swap_dashes(c),
        ),
        dashes_educated(s, Dashes::EmDash) == dashes_educated(s, Dashes::OldSchool).map_values(
            |c: char| en_to_em(c),
        ),
{
    let swap = |c: char| swap_dashes(c);
    let em = |c: char| en_to_em(c);
    assert(s.map_values(swap) =~= s);
    assert(s.map_values(em) =~= s);
    lemma_dash_rename(s, swap, EMDASH, ENDASH);
    lemma_dash_rename(s, em, EMDASH, ENDASH);
}

/// A tag that opens no protected element is copied as it is and leaves both
/// the quote context and the count of open protected elements as they were.
pub proof fn law_plain_tag_transparent(
    o: Settings,
    s: Seq<char>,
    i: int,
    prev: Option<char>,
    protected: nat,
)
    requires
        opens_tag(s, i),
        match tag_name_of(s, i, tag_end(s, i)) {
            Some((name, _)) => !is_protected_name(name),
            None => true,
        },
    ensures
        html_educated(o, s, i, prev, protected) == s.subrange(i, tag_end(s, i)) + html_educated(
            o,
            s,
            tag_end(s, i),
            prev,
            protected,
        ),
{
    assert(protection_after(s, i, tag_end(s, i), protected) == protected);
}

/// HTML-aware education of text with no `<` is the education of one run.
pub proof fn lemma_html_single_run(o: Settings, t: Seq<char>)
    requires
        forall|k: int| 0 <= k < t.len() ==> #[trigger] t[k] != '<',
    ensures
        html_educated(o, t, 0, None, 0) == run_educated(o, t, None),
{
    if t.len() > 0 {
        assert(t[0] != '<');
        assert(!opens_tag(t, 0));
        assert forall|m: int| 1 <= m < t.len() implies !#[trigger] opens_tag(t, m) by {
            assert(t[m] != '<');
        }
        lemma_next_tag_from_is_first(t, 1, t.len() as int);
        assert(t.subrange(0, t.len() as int) =~= t);
        let educated = run_educated(o, t, None);
        assert(html_educated(o, t, t.len() as int, last_or(educated, None), 0) == Seq::<char>::empty());
        assert(html_educated(o, t, 0, None, 0) == educated + html_educated(
            o,
            t,
            t.len() as int,
            last_or(educated, None),
            0,
        ));
        assert(educated + Seq::<char>::empty() =~= educated);
    }
}

/// A paragraph tag around text with no `<` is copied as it is and does not
/// change how the text inside is educated.
pub proof fn law_paragraph_transparent(o: Settings, t: Seq<char>)
    requires
        forall|k: int| 0 <= k < t.len() ==> #[trigger] t[k] != '<',
    ensures
        html_educated(o, seq!['<', 'p', '>'] + t + seq!['<', '/', 'p', '>'], 0, None, 0) == seq![
            '<',
            'p',
            '>',
        ] + html_educated(o, t, 0, None, 0) + seq!['<', '/', 'p', '>'],
{
    let open = seq!['<', 'p', '>'];
    let close = seq!['<', '/', 'p', '>'];
    let s = open + t + close;
    let n = t.len() as int;
    assert(s.len() == n + 7);
    assert(s[0] == '<' && s[1] == 'p' && s[2] == '>');
    assert(s[n + 3] == '<' && s[n + 4] == '/' && s[n + 5] == 'p' && s[n + 6] == '>');
    assert forall|k: int| 0 <= k < n implies s[k + 3] == #[trigger] t[k] by {}
    broadcast use vstd::string::group_string_axioms;
    reveal_strlit("pre");
    reveal_strlit("code");
    reveal_strlit("kbd");
    reveal_strlit("script");
    reveal_strlit("style");
    reveal_strlit("math");
    reveal_strlit("textarea");
    assert(!is_protected_name(seq!['p'])) by {
        assert("pre"@.len() == 3);
        assert("code"@.len() == 4);
        assert("kbd"@.len() == 3);
        assert("script"@.len() == 6);
        assert("style"@.len() == 5);
        assert("math"@.len() == 4);
        assert("textarea"@.len() == 8);
    }
    // The opening tag.
    assert(opens_tag(s, 0));
    assert(!starts_comment(s, 0));
    assert(tag_close(s, 2, None) == 3);
    assert(tag_close(s, 1, None) == 3);
    assert(tag_end(s, 0) == 3);
    assert(alphanumeric_run_end(s, 2, 3) == 2);
    assert(alphanumeric_run_end(s, 1, 3) == 2);
    assert(crate::chars::lowercase_of('p') == seq!['p']);
    assert(crate::chars::lowered(s, 1, 1) == Seq::<char>::empty());
    assert(crate::chars::lowered(s, 1, 2) =~= seq!['p']);
    assert(tag_name_of(s, 0, 3) == Some((seq!['p'], false)));
    law_plain_tag_transparent(o, s, 0, None, 0);
    // The closing tag.
    let c = n + 3;
    assert(opens_tag(s, c));
    assert(!starts_comment(s, c));
    assert(tag_close(s, c + 3, None) == c + 4);
    assert(tag_close(s, c + 2, None) == c + 4);
    assert(tag_close(s, c + 1, None) == c + 4);
    assert(tag_end(s, c) == c + 4);
    assert(alphanumeric_run_end(s, c + 3, c + 4) == c + 3);
    assert(alphanumeric_run_end(s, c + 2, c + 4) == c + 3);
    assert(crate::chars::lowered(s, c + 2, c + 2) == Seq::<char>::empty());
    assert(crate::chars::lowered(s, c + 2, c + 3) =~= seq!['p']);
    assert(tag_name_of(s, c, c + 4) == Some((seq!['p'], true)));
    law_plain_tag_transparent(o, s, c, None, 0);
    assert(s.subrange(c, c + 4) =~= close);
    assert(s.subrange(0, 3) =~= open);
    lemma_html_single_run(o, t);
    if n > 0 {
        assert(!opens_tag(s, 3)) by {
            assert(s[3] == t[0]);
        }
        assert forall|m: int| 4 <= m < c implies !#[trigger] opens_tag(s, m) by {
            assert(s[m] == t[m - 3]);
        }
        lemma_next_tag_from_is_first(s, 4, c);
        assert(s.subrange(3, c) =~= t);
        let educated = run_educated(o, t, None);
        assert(html_educated(o, s, 3, None, 0) == educated + html_educated(
            o,
            s,
            c,
            last_or(educated, None),
            0,
        ));
        law_plain_tag_transparent(o, s, c, last_or(educated, None), 0);
    }
}

} // verus!
