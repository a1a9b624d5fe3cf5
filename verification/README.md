# blog_service

A small static blog: posts are markdown files that open with a header block
between two `---` lines (`title:`, `mathjax:`, `date:`, `tags:`,
`visible:`); the generator renders every visible post into a page, writes
an archive page, and a web server serves the result.

- `src/` is the verified library (Verus): text operations (`text`), the
  header parser and the reading of a post (`article`), points in time
  (`timestamp`), page assembly around the markdown and template engines
  (`template`), the per-post decisions of the generator (`generator`), the
  paths and replies of the web handlers (`handler`), and the server state
  (`state`).
- `app/` is the program around it: walking and writing files, and the
  actix-web server.
- `tests/` holds the tests of the library.
