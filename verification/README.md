# md-preview

`md` opens Markdown files, folders or piped text in a preview window with a file tree,
tabs, a file palette, source and diff views, and themes. One window per user: a second
`md` hands its paths to the running window.

## Layout

- `src/` — the library, verified with Verus: Markdown rendering (over pulldown-cmark's
  events), the pages and their pieces, request routing and replies, identifiers and URL
  paths, the tree listing and the breadth-first file walk, line and character diffs,
  themes and the theme listing, command-line parsing, the start-up plan for paths and
  piped input, the handover protocol between two `md` processes, the close sequence,
  and the `uninstall` plan. Laws that relate several functions are public proof
  functions next to them.
- `tests/` — tests of the library on concrete values.
- `app/` — the program around it: the terminal, files and git, sockets and locks,
  detaching, the window and web view (tao, wry), the file watcher, and macOS calls.
  Stylesheets, scripts and the sample document are read from an `assets` directory
  beside the executable (or `MD_ASSETS_DIR`). That directory is not part of this tree
  and has to be installed with the program: `css/base.css`, the page scripts under
  `js/` (their names and load order are `page::page_script_names`, the highlighter
  under `vendor/`), `js/folder.js`, `themes/<name>.css`, `vendor/` with the
  highlighting stylesheets and the diagram libraries, `sample.md` and `icon.png`. A file
  that is missing reads as empty.
