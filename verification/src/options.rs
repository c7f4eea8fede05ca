//! The modes in which dashes and backtick-style quotes are educated.
use vstd::prelude::*;

verus! {

/// How `--` and `---` are converted.
#[derive(Debug, Clone, Copy, PartialEq, Eq, Hash)]
pub enum Dashes {
    /// Leave dashes unchanged.
    Off,
    /// `--` and `---` both become an em dash (`—`). The default.
    EmDash,
    /// `--` → en dash (`–`), `---` → em dash (`—`).
    OldSchool,
    /// `--` → em dash (`—`), `---` → en dash (`–`).
    Inverted,
}

impl Default for Dashes {
    fn default() -> (d: Self)
        ensures
            d == Dashes::EmDash,
    {
        Dashes::EmDash
    }
}

/// How backtick-style quotes are converted.
#[derive(Debug, Clone, Copy, PartialEq, Eq, Hash)]
pub enum Backticks {
    /// Leave backticks unchanged.
    Off,
    /// Two backticks become `“` and `''` becomes `”`. The default.
    Double,
    /// Also convert a single `` ` `` → `‘` and `'` → `’`.
    All,
}

impl Default for Backticks {
    fn default() -> (b: Self)
        ensures
            b == Backticks::Double,
    {
        Backticks::Double
    }
}

} // verus!
