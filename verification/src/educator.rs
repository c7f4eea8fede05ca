//! The configurable educator: which passes run, and how HTML is walked.
use vstd::prelude::*;
use crate::html::{
    is_protected, is_protected_name, is_self_closing, is_tag_start, lemma_next_tag_from_bounds,
    lemma_tag_end_bounds, next_tag_from, opens_tag, read_tag, self_closing, tag_end, tag_name,
    tag_name_of,
};
use crate::options::{Backticks, Dashes};
use crate::quotes::{educate_quotes, last_or, quotes_educated};
use crate::text::{chars_of, string_of};
use crate::transforms::{
    backticks_educated, dashes_educated, educate_backticks, educate_dashes, educate_ellipses,
    ellipses_educated,
};

verus! {

/// Builder configuring which transformations to apply.
#[derive(Debug, Clone, PartialEq, Eq)]
pub struct SmartyPants {
    quotes: bool,
    backticks: Backticks,
    dashes: Dashes,
    ellipses: bool,
    html: bool,
}

/// What a `SmartyPants` is configured to do.
pub struct Settings {
    pub quotes: bool,
    pub backticks: Backticks,
    pub dashes: Dashes,
    pub ellipses: bool,
    pub html: bool,
}

impl View for SmartyPants {
    type V = Settings;

    closed spec fn view(&self) -> Settings {
        Settings {
            quotes: self.quotes,
            backticks: self.backticks,
            dashes: self.dashes,
            ellipses: self.ellipses,
            html: self.html,
        }
    }
}

/// The default configuration: quotes, backtick-style double quotes, em dashes
/// and ellipses, treating the input as HTML.
pub open spec fn default_settings() -> Settings {
    Settings {
        quotes: true,
        backticks: Backticks::Double,
        dashes: Dashes::EmDash,
        ellipses: true,
        html: true,
    }
}

/// The replacement passes of `o` applied to `run`: ellipses, dashes, then
/// backtick-style quotes.
pub open spec fn replacements_educated(o: Settings, run: Seq<char>) -> Seq<char> {
    let dotted = if o.ellipses {
        ellipses_educated(run)
    } else {
        run
    };
    backticks_educated(dashes_educated(dotted, o.dashes), o.backticks)
}

/// A run of text educated under `o`, its first character following the
/// emitted character `prev`.
pub open spec fn run_educated(o: Settings, run: Seq<char>, prev: Option<char>) -> Seq<char> {
    if o.quotes {
        quotes_educated(replacements_educated(o, run), prev)
    } else {
        replacements_educated(o, run)
    }
}

/// How many protected elements are open after the tag `chars[start..end]`,
/// when `protected` were open before it.
pub open spec fn protection_after(chars: Seq<char>, start: int, end: int, protected: nat) -> nat {
    match tag_name_of(chars, start, end) {
        Some((name, closing)) => if !is_protected_name(name) {
            protected
        } else if closing {
            if protected > 0 {
                (protected - 1) as nat
            } else {
                0
            }
        } else if !self_closing(chars, end) {
            protected + 1
        } else {
            protected
        },
        None => protected,
    }
}

/// The HTML-aware education of `chars[i..]`: tags are kept as they are; text
/// runs between tags are educated under `o`, unless inside a protected element,
/// in which case they are kept; `prev` is the last character emitted or kept
/// outside tags, and `protected` the number of protected elements open.
pub open spec fn html_educated(
    o: Settings,
    chars: Seq<char>,
    i: int,
    prev: Option<char>,
    protected: nat,
) -> Seq<char>
    decreases chars.len() - i,
    via html_educated_decreases
{
    if i < 0 || i >= chars.len() {
        Seq::empty()
    } else if opens_tag(chars, i) {
        let end = tag_end(chars, i);
        chars.subrange(i, end) + html_educated(
            o,
            chars,
            end,
            prev,
            protection_after(chars, i, end, protected),
        )
    } else {
        let end = next_tag_from(chars, i + 1);
        let run = chars.subrange(i, end);
        if protected > 0 {
            run + html_educated(o, chars, end, Some(run.last()), protected)
        } else {
            let educated = run_educated(o, run, prev);
            educated + html_educated(o, chars, end, last_or(educated, prev), protected)
        }
    }
}

#[via_fn]
proof fn html_educated_decreases(
    o: Settings,
    chars: Seq<char>,
    i: int,
    prev: Option<char>,
    protected: nat,
) {
    if 0 <= i < chars.len() {
        if opens_tag(chars, i) {
            lemma_tag_end_bounds(chars, i);
        } else {
            lemma_next_tag_from_bounds(chars, i + 1);
        }
    }
}

/// What `apply` makes of `text` under `o`.
pub open spec fn applied(o: Settings, text: Seq<char>) -> Seq<char> {
    if o.html {
        html_educated(o, text, 0, None, 0)
    } else {
        run_educated(o, text, None)
    }
}

impl Default for SmartyPants {
    fn default() -> (r: Self)
        ensures
            r@ == default_settings(),
    {
        SmartyPants {
            quotes: true,
            backticks: Backticks::Double,
            dashes: Dashes::EmDash,
            ellipses: true,
            html: true,
        }
    }
}

impl SmartyPants {
    /// Default configuration: educate quotes, backtick-style quotes, em dashes,
    /// ellipses, treating the input as HTML.
    #[must_use]
    pub fn new() -> (r: Self)
        ensures
            r@ == default_settings(),
    {
        Self::default()
    }

    /// Enable or disable curly-quote education (default `true`).
    #[must_use]
    pub fn quotes(self, on: bool) -> (r: Self)
        ensures
            r@ == (Settings { quotes: on, ..self@ }),
    {
        SmartyPants { quotes: on, ..self }
    }

    /// Set how backtick-style quotes are converted (default `Backticks::Double`).
    #[must_use]
    pub fn backticks(self, mode: Backticks) -> (r: Self)
        ensures
            r@ == (Settings { backticks: mode, ..self@ }),
    {
        SmartyPants { backticks: mode, ..self }
    }

    /// Set how dashes are converted (default `Dashes::EmDash`).
    #[must_use]
    pub fn dashes(self, mode: Dashes) -> (r: Self)
        ensures
            r@ == (Settings { dashes: mode, ..self@ }),
    {
        SmartyPants { dashes: mode, ..self }
    }

    /// Enable or disable ellipsis education (default `true`).
    #[must_use]
    pub fn ellipses(self, on: bool) -> (r: Self)
        ensures
            r@ == (Settings { ellipses: on, ..self@ }),
    {
        SmartyPants { ellipses: on, ..self }
    }

    /// Treat the input as HTML, skipping tags and protected elements (default
    /// `true`). Set to `false` to educate the whole string as plain text.
    #[must_use]
    pub fn html(self, on: bool) -> (r: Self)
        ensures
            r@ == (Settings { html: on, ..self@ }),
    {
        SmartyPants { html: on, ..self }
    }

    /// Apply the configured transformations to `text`.
    #[must_use]
    pub fn apply(&self, text: &str) -> (r: String)
        ensures
            r@ == applied(self@, text@),
    {
        let chars = chars_of(text);
        let out = if self.html {
            self.apply_html(chars.as_slice())
        } else {
            let mut prev: Option<char> = None;
            self.educate_run(chars.as_slice(), &mut prev)
        };
        string_of(&out)
    }

    /// HTML-aware pass: educate text, leave tags and protected-element content alone.
    fn apply_html(&self, chars: &[char]) -> (r: Vec<char>)
        ensures
            r@ == html_educated(self@, chars@, 0, None, 0),
    {
        let len = chars.len();
        let mut out: Vec<char> = Vec::new();
        let mut prev: Option<char> = None;
        let mut protected: usize = 0;
        let mut i: usize = 0;
        while i < len
            invariant
                len == chars@.len(),
                i <= len,
                protected <= i,
                out@ + html_educated(self@, chars@, i as int, prev, protected as nat)
                    == html_educated(self@, chars@, 0, None, 0),
            decreases len - i,
        {
            let ghost before = out@;
            if chars[i] == '<' && is_tag_start(chars, i) {
                let (mut tag, next) = read_tag(chars, i);
                proof {
                    lemma_tag_end_bounds(chars@, i as int);
                }
                let ghost was = protected as nat;
                if let Some((name, closing)) = tag_name(chars, i, next) {
                    if is_protected(name.as_slice()) {
                        if closing {
                            protected = if protected > 0 {
                                protected - 1
                            } else {
                                0
                            };
                        } else if !is_self_closing(chars, next) {
                            protected += 1;
                        }
                    }
                }
                assert(protected as nat == protection_after(chars@, i as int, next as int, was));
                out.append(&mut tag);
                i = next;
            } else {
                let start = i;
                i += 1;
                while i < len && !(chars[i] == '<' && is_tag_start(chars, i))
                    invariant
                        len == chars@.len(),
                        start < i <= len,
                        next_tag_from(chars@, i as int) == next_tag_from(chars@, start + 1),
                    decreases len - i,
                {
                    i += 1;
                }
                let run = vstd::slice::slice_subrange(chars, start, i);
                if protected > 0 {
                    let mut kept = vstd::slice::slice_to_vec(run);
                    prev = Some(run[run.len() - 1]);  // thread context through skipped content
                    out.append(&mut kept);
                } else {
                    let mut educated = self.educate_run(run, &mut prev);
                    out.append(&mut educated);
                }
            }
        }
        out
    }

    /// Educate a single run of text, threading quote context through `prev`.
    fn educate_run(&self, run: &[char], prev: &mut Option<char>) -> (r: Vec<char>)
        ensures
            r@ == run_educated(self@, run@, *old(prev)),
            *final(prev) == last_or(r@, *old(prev)),
    {
        let dotted = if self.ellipses {
            educate_ellipses(run)
        } else {
            vstd::slice::slice_to_vec(run)
        };
        let dashed = educate_dashes(dotted.as_slice(), self.dashes);
        let s = educate_backticks(dashed.as_slice(), self.backticks);
        if self.quotes {
            educate_quotes(s.as_slice(), prev)
        } else {
            if s.len() > 0 {
                *prev = Some(s[s.len() - 1]);
            }
            s
        }
    }
}

/// Apply the default SmartyPants transformations to `text`.
#[must_use]
pub fn smartypants(text: &str) -> (r: String)
    ensures
        r@ == applied(default_settings(), text@),
{
    SmartyPants::new().apply(text)
}

} // verus!
