# syncdoc_migrate

Moves the documentation of a Rust crate between doc comments and external
markdown files, and back again, while keeping the rest of each source file as
its author formatted it.

The library (`src/`) is written in Verus. Each public function states what it
returns over a mathematical model of the source text (character sequences,
lines, token streams and a syntax tree of the items of a file), and Verus
proves the code against those statements.

- `extract`: reading `#[doc = "..."]` attributes and Rust string literals.
- `syntax`: the item tree of a parsed file and how it is printed as tokens.
- `write`, `write::expected`: which markdown file each documented item maps
  to, and the text written there.
- `rewrite`: stripping doc attributes and adding `#[syncdoc::omnidoc]` /
  `module_doc!` annotations.
- `restore`: turning markdown back into doc comments.
- `rewrite::reformat`: keeping the original layout after a transformation,
  by diffing two rustfmt outputs and applying only the hunks that belong to
  the documentation change. The formatter is driven from outside through a
  small state machine (`ReformatJob::step`).
- `text`: the character and line helpers the rest is stated over.

`app/` holds the parts that touch the file system and processes: discovering
and parsing files, running rustfmt, reading and writing markdown, and the
debug switch.
