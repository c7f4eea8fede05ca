//! Smart typographic punctuation: straight quotes become curly quotes, `--` and
//! `---` become en or em dashes, and `...` becomes a horizontal ellipsis, with
//! HTML tags and protected elements left untouched.
use vstd::prelude::*;

pub mod chars;
pub mod educator;
pub mod html;
pub mod laws;
pub mod options;
pub mod promises;
pub mod quotes;
pub mod replace;
pub mod text;
pub mod transforms;

pub use educator::{smartypants, SmartyPants};
pub use options::{Backticks, Dashes};

verus! {

} // verus!
