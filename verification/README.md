# hydration

Extraction of the hydration state that single-page web applications embed in
HTML, with its logic verified by Verus.

- `src/` is the verified library. It selects the JSON script blocks and the
  inline scripts of a document (with `scraper`), parses inline JavaScript
  (with `tree-sitter`), finds the keys that hold state and reads their
  values (JSON with `serde_json`, JavaScript literals with `json5`), keeps
  the state as a map in which later values replace earlier ones, and turns
  devalue arrays (Nuxt, Pinia) back into nested values.
- `app/` reads the numbers that are no `i64` as floats and converts between
  the library's values and `serde_json::Value`.
- `tests/` runs the library on documents and values.
