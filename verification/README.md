# hemmer

A pipeline that turns HTML (optionally with Tailwind utility classes) into
email-client-ready HTML: CSS inlining, table and image defaults, Outlook
conditional comments, `rem` to `px`, custom-property and `calc()` resolution,
and many smaller fixes. The library is written in Verus: every transformation
has a contract, and the laws the pipeline keeps are proved.

## Layout

- `src/text.rs` — character-sequence helpers and their specifications.
- `src/html.rs` — the model of an element's attributes and of text chunks
  that the streaming rewriter (`lol_html`) hands to the handlers, with the
  read-after-write laws of attributes.
- `src/rewrite.rs` — one rewriting pass over a document, dispatching every
  element and text chunk to the verified handler of a rule.
- `src/transformers/` — one module per transformation; each states, as spec
  functions, what it does to an element's attributes and to a text chunk,
  and proves its executable code against them.
- `src/pipeline.rs` — the configurable pipeline: which steps are on, in what
  order they run, and what a run makes of a document.
- `app/lib.rs` — the Erlang/Elixir bindings and an error type with
  `std::error::Error`.

## Trusted boundary

The calls into `lol_html`, `css-inline`, `encre-css`, `minify-html` and
`regex`, and a few std conversions, stand behind small wrappers whose
contracts are believed, not proved. Where an outside result is too large to
state (an inlined document, a minified one, a regular expression's verdict),
the contract gives it a name as a function of the call's arguments, and the
library's own contracts are stated over that name.

`css-inline` is built without loading stylesheets over the network or from
files.
