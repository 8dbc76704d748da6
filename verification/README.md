# headlint

A linter for a web page's `<head>` (OGP, title, favicon, canonical, meta
robots) and its robots.txt, with the decisions verified in Verus.

- `src/` is the verified library: robots.txt parsing and Google's
  longest-match reading (`robots_txt`, `robots`, `pattern`), the page model
  (`page`), the checks that turn a page and what was fetched into report
  sections (`check`, `lint`), the report and its text form (`report`), how a
  fetched URL is judged (`fetch`), `f64` rounding reproduced exactly on
  integers for the image ratio and sizes (`binary64`), the command line
  (`cli`) and the keys and navigation of the terminal view (`tui`). Calls into `regex`, `scraper`,
  `unicode-width`, `url` and `imagesize` stand behind small trusted
  wrappers whose contracts name or state their results.
- `app/` is the program: HTTP with `ureq`, the `ratatui` view, and JSON
  output with `serde_json`.
- `tests/` runs the library on concrete inputs.

```
headlint polidog.jp                     # terminal view
headlint --json polidog.jp              # JSON
headlint --validate polidog.jp          # text, exit 1 if any ✗
```
