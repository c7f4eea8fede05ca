//! The replacement passes: ellipses, dashes and backtick-style quotes.
use vstd::prelude::*;
use crate::chars::{ELLIPSIS, EMDASH, ENDASH, LDQUO, LSQUO, RDQUO, RSQUO};
use crate::options::{Backticks, Dashes};
use crate::replace::{replace_all, replace_all_chars};

verus! {

/// `...` and then `. . .` replaced by a horizontal ellipsis.
pub open spec fn ellipses_educated(s: Seq<char>) -> Seq<char> {
    replace_all(
        replace_all(s, seq!['.', '.', '.'], seq![ELLIPSIS]),
        seq!['.', ' ', '.', ' ', '.'],
        seq![ELLIPSIS],
    )
}

/// `s` with `---` and then `--` replaced by the dashes that `mode` chooses.
pub open spec fn dashes_educated(s: Seq<char>, mode: Dashes) -> Seq<char> {
    match mode {
        Dashes::Off => s,
        Dashes::EmDash => replace_all(
            replace_all(s, seq!['-', '-', '-'], seq![EMDASH]),
            seq!['-', '-'],
            seq![EMDASH],
        ),
        Dashes::OldSchool => replace_all(
            replace_all(s, seq!['-', '-', '-'], seq![EMDASH]),
            seq!['-', '-'],
            seq![ENDASH],
        ),
        Dashes::Inverted => replace_all(
            replace_all(s, seq!['-', '-', '-'], seq![ENDASH]),
            seq!['-', '-'],
            seq![EMDASH],
        ),
    }
}

/// `s` with ``` `` ``` and `''` replaced by double quotes and, in
/// `Backticks::All`, single `` ` `` and `'` by single quotes.
pub open spec fn backticks_educated(s: Seq<char>, mode: Backticks) -> Seq<char> {
    match mode {
        Backticks::Off => s,
        Backticks::Double => replace_all(
            replace_all(s, seq!['`', '`'], seq![LDQUO]),
            seq!['\'', '\''],
            seq![RDQUO],
        ),
        Backticks::All => replace_all(
            replace_all(
                replace_all(replace_all(s, seq!['`', '`'], seq![LDQUO]), seq!['\'', '\''], seq![RDQUO]),
                seq!['`'],
                seq![LSQUO],
            ),
            seq!['\''],
            seq![RSQUO],
        ),
    }
}

/// Replaces `...` and `. . .` with a horizontal ellipsis.
pub fn educate_ellipses(s: &[char]) -> (r: Vec<char>)
    ensures
        r@ == ellipses_educated(s@),
{
    let ellipsis = vec![ELLIPSIS];
    let dots = vec!['.', '.', '.'];
    let spaced = vec!['.', ' ', '.', ' ', '.'];
    assert(ellipsis@ =~= seq![ELLIPSIS]);
    assert(dots@ =~= seq!['.', '.', '.']);
    assert(spaced@ =~= seq!['.', ' ', '.', ' ', '.']);
    let once = replace_all_chars(s, dots.as_slice(), ellipsis.as_slice());
    replace_all_chars(once.as_slice(), spaced.as_slice(), ellipsis.as_slice())
}

/// Replaces dash runs according to `mode`; `---` is handled before `--`.
pub fn educate_dashes(s: &[char], mode: Dashes) -> (r: Vec<char>)
    ensures
        r@ == dashes_educated(s@, mode),
{
    let (triple, double) = match mode {
        Dashes::Off => {
            return vstd::slice::slice_to_vec(s);
        },
        Dashes::EmDash => (EMDASH, EMDASH),
        Dashes::OldSchool => (EMDASH, ENDASH),
        Dashes::Inverted => (ENDASH, EMDASH),
    };
    let three = vec!['-', '-', '-'];
    let two = vec!['-', '-'];
    let triple_rep = vec![triple];
    let double_rep = vec![double];
    assert(three@ =~= seq!['-', '-', '-']);
    assert(two@ =~= seq!['-', '-']);
    assert(triple_rep@ =~= seq![triple]);
    assert(double_rep@ =~= seq![double]);
    let once = replace_all_chars(s, three.as_slice(), triple_rep.as_slice());
    replace_all_chars(once.as_slice(), two.as_slice(), double_rep.as_slice())
}

/// Replaces backtick-style quotes according to `mode`.
pub fn educate_backticks(s: &[char], mode: Backticks) -> (r: Vec<char>)
    ensures
        r@ == backticks_educated(s@, mode),
{
    if let Backticks::Off = mode {
        return vstd::slice::slice_to_vec(s);
    }
    let backticks = vec!['`', '`'];
    let apostrophes = vec!['\'', '\''];
    let ldquo = vec![LDQUO];
    let rdquo = vec![RDQUO];
    assert(backticks@ =~= seq!['`', '`']);
    assert(apostrophes@ =~= seq!['\'', '\'']);
    assert(ldquo@ =~= seq![LDQUO]);
    assert(rdquo@ =~= seq![RDQUO]);
    let open = replace_all_chars(s, backticks.as_slice(), ldquo.as_slice());
    let double = replace_all_chars(open.as_slice(), apostrophes.as_slice(), rdquo.as_slice());
    if let Backticks::Double = mode {
        return double;
    }
    let backtick = vec!['`'];
    let apostrophe = vec!['\''];
    let lsquo = vec![LSQUO];
    let rsquo = vec![RSQUO];
    assert(backtick@ =~= seq!['`']);
    assert(apostrophe@ =~= seq!['\'']);
    assert(lsquo@ =~= seq![LSQUO]);
    assert(rsquo@ =~= seq![RSQUO]);
    let single_open = replace_all_chars(double.as_slice(), backtick.as_slice(), lsquo.as_slice());
    replace_all_chars(single_open.as_slice(), apostrophe.as_slice(), rsquo.as_slice())
}

} // verus!
