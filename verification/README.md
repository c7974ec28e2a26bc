# Markdown PDF Desktop

A local Markdown editor that previews documents in a themed page and exports them to PDF
with the local Microsoft Edge. The document pipeline is a Verus-verified library; the
desktop shell around it is ordinary Rust.

## Layout

- `src/` — the verified library (`mdpdf_desktop`):
  - `text.rs`: character-level string primitives (search, replace, trim, splice, UTF-8 sizes).
  - `escape.rs`: HTML text escaping.
  - `mermaid.rs`: lifting Mermaid fenced blocks out of Markdown and putting the escaped
    diagrams back into the rendered HTML.
  - `diff.rs`: line diffs of Markdown bracketed by markers, turned into diff blocks.
  - `pattern.rs`: regular-expression matches and CommonMark rendering as plain values.
  - `theme.rs`: theme configuration, request overrides, validation, printer and document
    options.
  - `markdown.rs`: table of contents, cover, title, body and page template; the whole
    document render.
  - `preview.rs`: the in-page preview renderer.
  - `desktop.rs`: workspace listing and sorting, literal batch replacement, saves,
    exports, the offline Mermaid runtime.
  - `images.rs`: finding and rewriting image addresses, and inlining local images.
  - `process.rs`: printer and Mermaid command-line arguments, logs and error text.
  - `routes.rs`: upload and download checks.
- `tests/` — tests of the library.
- `app/` — the Tauri commands, file and process work, serde forms of the library's types,
  and the WebAssembly entry points of the preview.

Contracts state each function's result over mathematical models (`Seq`, `Map`, spec
functions). Calls into `comrak`, `regex`, `similar`, `uuid`, `html_escape`, `base64` and
`url` go through small trusted wrappers: `html_escape::encode_text` is stated exactly, the
random identifier of `uuid` by its form only, and every other call's result is named by
an uninterpreted spec function of its arguments (for a regular expression, of its
pattern and case setting), which the library's contracts then speak of.
