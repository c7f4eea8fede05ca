//! Further behaviour of the educator: its laws on concrete text, edge cases of
//! the HTML scanner and of quote education, and the helper functions.

use smartypants::chars::{EMDASH, LSQUO, RSQUO};
use smartypants::html::{is_self_closing, is_tag_start, read_tag, tag_name};
use smartypants::quotes::{choose_single_quote, is_elision_word, is_open_context};
use smartypants::replace::replace_all_chars;
use smartypants::text::{chars_of, string_of};
use smartypants::transforms::{educate_backticks, educate_dashes, educate_ellipses};
use smartypants::{smartypants, Backticks, Dashes, SmartyPants};

fn configs() -> Vec<SmartyPants> {
    vec![
        SmartyPants::new(),
        SmartyPants::new().dashes(Dashes::OldSchool).backticks(Backticks::All),
        SmartyPants::new().dashes(Dashes::Inverted).backticks(Backticks::Off).html(false),
        SmartyPants::new().quotes(false),
        SmartyPants::new().quotes(false).backticks(Backticks::All).ellipses(false),
    ]
}

const SAMPLES: &[&str] = &[
    "\"It's\" -- a test...",
    "<p>\"Hi\" -- 'yo'</p><code>\"x\"</code> ``a''",
    "a --- b ---- c ..... . . . . d",
    "<a title=\"a>b\">don't</a> <!-- \"c\" --> 'em `q' ''",
    "x < y <3 'a' <b>\"</b>x\" \"<i>\"</i>",
    "<!-->\"x\" <CODE>'a'</CODE> 'Twas '90s",
];

#[test]
fn applying_twice_changes_nothing() {
    for sp in configs() {
        for text in SAMPLES {
            let once = sp.apply(text);
            assert_eq!(sp.apply(&once), once, "{:?} on {:?}", sp, text);
        }
    }
}

#[test]
fn settled_text_is_unchanged() {
    let curly = "\u{201c}It\u{2019}s\u{201d} \u{2014} a test\u{2026}";
    assert_eq!(smartypants(curly), curly);
    assert_eq!(SmartyPants::new().html(false).apply(curly), curly);
}

#[test]
fn everything_off_is_identity() {
    let off = SmartyPants::new()
        .quotes(false)
        .backticks(Backticks::Off)
        .dashes(Dashes::Off)
        .ellipses(false);
    for text in SAMPLES {
        assert_eq!(off.apply(text), *text);
        assert_eq!(off.clone().html(false).apply(text), *text);
    }
}

#[test]
fn defaults() {
    assert_eq!(Dashes::default(), Dashes::EmDash);
    assert_eq!(Backticks::default(), Backticks::Double);
    assert_eq!(SmartyPants::default(), SmartyPants::new());
}

#[test]
fn readme_configuration_example() {
    let sp = SmartyPants::new()
        .dashes(Dashes::OldSchool)
        .backticks(Backticks::All)
        .ellipses(true)
        .html(false);
    assert_eq!(sp.apply("a -- b `c'"), "a \u{2013} b \u{2018}c\u{2019}");
}

#[test]
fn unterminated_tag_runs_to_the_end() {
    assert_eq!(smartypants("<a href=\"x"), "<a href=\"x");
    assert_eq!(smartypants("<a href='x>\"y\""), "<a href='x>\"y\"");
}

#[test]
fn unterminated_comment_runs_to_the_end() {
    assert_eq!(smartypants("<!-- \"x\" -- y"), "<!-- \"x\" -- y");
}

#[test]
fn dashes_inside_comments_are_kept() {
    assert_eq!(smartypants("<!-- a -- b -->c -- d"), "<!-- a -- b -->c \u{2014} d");
}

#[test]
fn self_closing_protected_tag_protects_nothing() {
    assert_eq!(smartypants("<code/>\"x\""), "<code/>\u{201c}x\u{201d}");
}

#[test]
fn protected_tag_names_ignore_case() {
    assert_eq!(
        smartypants("<CODE>\"x\"</CODE> \"y\""),
        "<CODE>\"x\"</CODE> \u{201c}y\u{201d}"
    );
}

#[test]
fn stray_closing_tag_does_not_underflow() {
    assert_eq!(smartypants("</code>\"x\""), "</code>\u{201c}x\u{201d}");
}

#[test]
fn doctype_and_processing_instructions_are_tags() {
    assert_eq!(smartypants("<!DOCTYPE html>\"x\""), "<!DOCTYPE html>\u{201c}x\u{201d}");
    assert_eq!(smartypants("<?xml v=\"1\"?>'a'"), "<?xml v=\"1\"?>\u{2018}a\u{2019}");
}

#[test]
fn script_content_is_kept() {
    let text = "<script>x = \"a\" -- 1</script>";
    assert_eq!(smartypants(text), text);
}

#[test]
fn quotes_open_after_brackets_and_dashes() {
    assert_eq!(smartypants("[\"a\"] {'b'}"), "[\u{201c}a\u{201d}] {\u{2018}b\u{2019}}");
    assert_eq!(smartypants("a --\"b\""), "a \u{2014}\u{201c}b\u{201d}");
}

#[test]
fn quote_before_a_non_letter_is_an_apostrophe() {
    assert_eq!(smartypants("'\"x\"'"), "\u{2019}\u{201d}x\u{201d}\u{2019}");
    assert_eq!(smartypants("a '"), "a \u{2019}");
    assert_eq!(smartypants("'85"), "\u{2019}85");
}

#[test]
fn quote_context_crosses_plain_tags() {
    assert_eq!(smartypants("<b>\"</b>x\""), "<b>\u{201c}</b>x\u{201d}");
    assert_eq!(smartypants("\"<i>\"</i>"), "\u{201c}<i>\u{201d}</i>");
}

#[test]
fn literal_less_than_signs() {
    assert_eq!(smartypants("a <"), "a <");
    assert_eq!(smartypants("<3 'you'"), "<3 \u{2018}you\u{2019}");
}

#[test]
fn long_dash_runs() {
    assert_eq!(smartypants("a----b"), "a\u{2014}-b");
    assert_eq!(smartypants("a-----b"), "a\u{2014}\u{2014}b");
    let old = SmartyPants::new().dashes(Dashes::OldSchool);
    assert_eq!(old.apply("a-----b"), "a\u{2014}\u{2013}b");
}

#[test]
fn long_dot_runs() {
    assert_eq!(smartypants("a....."), "a\u{2026}..");
    assert_eq!(smartypants("a. . . ."), "a\u{2026} .");
}

#[test]
fn backticks_all_converts_every_backtick_quote() {
    let sp = SmartyPants::new().backticks(Backticks::All);
    assert_eq!(sp.apply("``a'' `b'"), "\u{201c}a\u{201d} \u{2018}b\u{2019}");
}

#[test]
fn elisions_are_found_after_lowercasing() {
    assert_eq!(smartypants("'TWAS"), "\u{2019}TWAS");
    assert_eq!(smartypants("'Em all"), "\u{2019}Em all");
}

#[test]
fn non_ascii_letters_start_quoted_words() {
    assert_eq!(smartypants("'\u{e9}t\u{e9}'"), "\u{2018}\u{e9}t\u{e9}\u{2019}");
}

#[test]
fn unicode_white_space_opens_quotes() {
    assert_eq!(smartypants("a\u{3000}\"b\""), "a\u{3000}\u{201c}b\u{201d}");
    assert_eq!(smartypants("a\u{a0}'b'"), "a\u{a0}\u{2018}b\u{2019}");
    assert_eq!(smartypants("a\t'b'"), "a\t\u{2018}b\u{2019}");
    // U+200B has no White_Space property, so the quote closes.
    assert_eq!(smartypants("a\u{200b}\"b\""), "a\u{200b}\u{201d}b\u{201d}");
}

#[test]
fn open_context_helper() {
    assert!(is_open_context(None));
    assert!(is_open_context(Some(' ')));
    assert!(is_open_context(Some(EMDASH)));
    assert!(is_open_context(Some('\u{2018}')));
    assert!(!is_open_context(Some('a')));
    assert!(!is_open_context(Some('\u{201d}')));
}

#[test]
fn single_quote_choice_helper() {
    assert_eq!(choose_single_quote(false, Some('a'), true, false), RSQUO);
    assert_eq!(choose_single_quote(true, Some('9'), false, false), RSQUO);
    assert_eq!(choose_single_quote(true, Some('a'), true, false), LSQUO);
    assert_eq!(choose_single_quote(true, Some('t'), true, true), RSQUO);
    assert_eq!(choose_single_quote(true, Some('.'), false, false), RSQUO);
    assert_eq!(choose_single_quote(true, None, false, false), RSQUO);
}

#[test]
fn elision_word_helper() {
    assert!(is_elision_word(&['e', 'm']));
    assert!(is_elision_word(&['t', 'w', 'a', 's']));
    assert!(is_elision_word(&['n']));
    assert!(!is_elision_word(&['e', 'm', 's']));
    assert!(!is_elision_word(&['T', 'w', 'a', 's']));
    assert!(!is_elision_word(&[]));
}

#[test]
fn tag_scanning_helpers() {
    let chars = chars_of("<a title=\"a>b\">x");
    assert!(is_tag_start(&chars, 0));
    assert!(!is_tag_start(&chars, 15));
    let (tag, next) = read_tag(&chars, 0);
    assert_eq!(string_of(&tag), "<a title=\"a>b\">");
    assert_eq!(next, 15);
    let closing = chars_of("</PRE>");
    match tag_name(&closing, 0, closing.len()) {
        Some((name, is_closing)) => {
            assert_eq!(string_of(&name), "pre");
            assert!(is_closing);
        }
        None => panic!("expected a tag name"),
    }
    let comment = chars_of("<!-- x -->");
    assert!(tag_name(&comment, 0, comment.len()).is_none());
    let empty = chars_of("<!-->");
    assert_eq!(read_tag(&empty, 0).1, 5);
    let br = chars_of("<br/>");
    assert!(is_self_closing(&br, br.len()));
    assert!(!is_self_closing(&closing, closing.len()));
}

#[test]
fn replacement_is_leftmost_and_non_overlapping() {
    let r = replace_all_chars(&['a', 'a', 'a'], &['a', 'a'], &['b']);
    assert_eq!(r, vec!['b', 'a']);
    let r = replace_all_chars(&['x', 'y'], &['y', 'z'], &['q']);
    assert_eq!(r, vec!['x', 'y']);
}

#[test]
fn replacement_passes() {
    assert_eq!(educate_ellipses(&['.', '.', '.', '.']), vec!['\u{2026}', '.']);
    assert_eq!(
        educate_dashes(&['-', '-', '-', '-', '-'], Dashes::Inverted),
        vec!['\u{2013}', '\u{2014}']
    );
    assert_eq!(educate_dashes(&['-', '-'], Dashes::Off), vec!['-', '-']);
    assert_eq!(
        educate_backticks(&['`', '`', '\'', '\'', '`', '\''], Backticks::Double),
        vec!['\u{201c}', '\u{201d}', '`', '\'']
    );
}

#[test]
fn text_round_trip() {
    let chars = chars_of("h\u{e9}llo \u{1f600}");
    assert_eq!(chars.len(), 7);
    assert_eq!(string_of(&chars), "h\u{e9}llo \u{1f600}");
}

#[test]
fn dash_modes_differ_only_in_the_dash_written() {
    let text = "a--b---c----d-----e";
    let old = SmartyPants::new().dashes(Dashes::OldSchool).apply(text);
    let swapped: String = old
        .chars()
        .map(|c| match c {
            '\u{2013}' => '\u{2014}',
            '\u{2014}' => '\u{2013}',
            other => other,
        })
        .collect();
    assert_eq!(SmartyPants::new().dashes(Dashes::Inverted).apply(text), swapped);
    assert_eq!(
        SmartyPants::new().dashes(Dashes::EmDash).apply(text),
        old.replace('\u{2013}', "\u{2014}")
    );
}

#[test]
fn paragraph_tags_are_transparent() {
    for t in ["\"Hi\" -- 'yo'...", "don't", "", "a 'b' \"c\""] {
        let wrapped = format!("<p>{}</p>", t);
        assert_eq!(smartypants(&wrapped), format!("<p>{}</p>", smartypants(t)));
    }
}
