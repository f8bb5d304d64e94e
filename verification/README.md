# dead-links

Find dead links in the markdown files of a GitHub Pages (jekyll) site.

For every `.md` file under the given path, the tool finds the links, resolves
the internal ones against the site root (the nearest ancestor directory that
holds `_config.yml` or `_config.toml`) and reports links that are empty, that
look external but do not parse, that point to a `.md` file, that point outside
of the site root, or that point to a file that does not exist (a `.html`
target is checked through the `.md` file it is built from).

Results are cached per file in `SITE_ROOT/.dead-links-cache`, keyed by the
SHA-1 hash of the file's contents, so that only new or changed files are
scanned again.

## Layout

- `src/` is the verified library (Verus): path arithmetic, link
  classification, diagnostics and their text forms, the cache and its file
  format, and the decisions of a run (site root search, content hash, command
  line choices). Each public function has a contract; the laws that relate
  several functions are public proof functions named `law_*`.
- `app/` is the command line program around it: argument parsing with clap,
  walking the file system, memory-mapping and scanning files in parallel,
  json (serde) and fancy (miette) output, and reading and writing the cache
  file.
- `tests/` holds the tests of the library.
