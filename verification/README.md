# mdbook_inplace_notes

An mdBook preprocessor that turns `{{note: ...}}` markers into numbered
hover popovers, or into Markdown footnotes for non-HTML renderers.

- `src/` is the verified library: the marker grammar (`scan`), rendering a
  note and classifying its HTML (`render`), the chapter rewrite and the
  preprocessor's settings (`preprocessor`), and character-level helpers
  (`text`). Markdown is rendered by pulldown-cmark behind one trusted call.
- `app/main.rs` is the command-line program mdBook runs: argument handling,
  reading the book from stdin, logging warnings, writing the book back.
- `tests/` holds the tests, including a comparison of the marker scanner
  with the regular expression `(?s)\{\{note:\s*(?P<content>.*?)\}\}`.
