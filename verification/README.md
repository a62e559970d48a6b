# deadwiki

A small personal wiki served over HTTP: pages are markdown files under
`./wiki/`, assets live under `./web/`.

- `src/` is the library, verified with Verus: page names and titles
  (`page`), request routing and answers, form reading, layouts, markdown
  with wiki links (`web`), the command line (`cli`), the template values (`context`,
  `views`, `render`, `state`, `app`), and the text operations they are built
  from (`text`).
- `app/` is the `dead` program: it reads the command line, files and
  requests, and sends what the library decides.
- `tests/` runs the library on concrete values.
