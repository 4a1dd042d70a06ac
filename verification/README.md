# pet

A command-line snippet manager: save shell commands with a description and
tags, pick them with a fuzzy selector (fzf or the built-in picker), fill in
`<param>` placeholders in a small form, then print, run or copy the result.
Snippets live in plain TOML files and can be synced to a GitHub Gist.

## Layout

- `src/` — the library, written in Verus and verified: the placeholder
  grammar (`grammar`, `dialog`), the parameter form and picker state
  machines (`dialog`, `picker`, `keys`, `tui`), display templates (`format`,
  `template`), snippet ordering, filtering and grouping (`snippet`), usage
  statistics (`usage`), paths and shell history (`path`, `history`), the
  selector protocol (`selector`), the editor command (`editor`), gist
  requests and answers (`gist`), and the decisions of each subcommand
  (`cmd`). Contracts are stated over `Seq`/`Map` views; the `law_*` proof
  functions state properties that span several operations.
- `app/` — the program around it: argument parsing, terminal screens,
  files, processes, the clipboard and HTTP. It hands the library plain
  values and does what the library decides.
- `tests/` — tests of the library on concrete values.
