# smartypants

Smart typographic punctuation, verified with Verus: straight quotes become curly
quotes, `--`/`---` become en or em dashes, `...` becomes a horizontal ellipsis,
and in HTML mode tags and the contents of `pre`, `code`, `kbd`, `script`,
`style`, `math` and `textarea` are left untouched.

```rust
use smartypants::{smartypants, Dashes, SmartyPants};
assert_eq!(smartypants("\"It's\" -- a test..."), "“It’s” — a test…");
assert_eq!(SmartyPants::new().dashes(Dashes::OldSchool).apply("a -- b"), "a – b");
```

## Layout

- `src/educator.rs`: `SmartyPants`, its builder, `apply` and `smartypants`, with
  the specification `applied` of what they return.
- `src/transforms.rs`, `src/replace.rs`: the ellipsis, dash and backtick passes,
  built on left-to-right, non-overlapping substring replacement.
- `src/quotes.rs`: context-sensitive quote education.
- `src/html.rs`: tag scanning (tag ends, comments, names, self-closing tags).
- `src/chars.rs`, `src/text.rs`: glyphs, character classes and conversions
  between strings and character sequences.
- `src/laws.rs`: properties proved of the whole educator, among them that it
  is idempotent and leaves already-curly text unchanged.
