# sitegen

A static site generator. Markdown files under `Pages/<category>/...` with an
optional YAML frontmatter become article pages; HTML fragments under
`Special/` are wrapped in the shared page template (`Special/home.html`
becomes `/index.html`); `static/` is copied as it is; an archive page and a
JSON list of the articles are written to `Meta\site`.

- `src/` is the library, verified with Verus: text operations (`text`),
  escaping and templates (`html`, `page`), slugs and URL uniqueness (`slug`),
  frontmatter splitting (`frontmatter`), file names and source order
  (`paths`, `order`), git output (`git`), articles (`article`), the archive
  (`archive`) and special pages (`special`). `external` holds the few trusted
  calls into pulldown-cmark, sha1, unicode-normalization and std.
- `app/` is the program: it walks the directories, reads and writes files,
  runs `git`, parses YAML and writes JSON, and hands everything else to the
  library.
- `tests/` runs the library on concrete inputs.
