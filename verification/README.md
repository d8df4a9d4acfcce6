# renderer

Renders an org-roam export (one JSON tree per node, in org-element form) into
HTML fragments for a static site, with a URL slug per node, an alias table of
every URL path, and the last-modified time of each node.

- `src/` is the library, verified with Verus: the JSON tree (`json`), HTML
  escaping and white space (`text`), rendering (`render`) and the element
  types it does not know (`unknown`), slugs and the slug
  and alias tables (`slug`, `order`, `map`), org timestamps (`timestamp`),
  media and PDF gallery naming (`media`), the render cache hashes (`cache`),
  and the per-run rules (`pipeline`). Calls into std's Unicode and path
  functions, chrono, sha2 and serde_json go through small trusted wrappers
  whose contracts are stated next to them.
- `app/` is the command-line program: argument parsing, file I/O, image
  decoding and WebP encoding, `pdftoppm`, and JSON (de)serialization.
- `tests/` runs the library on concrete inputs.
