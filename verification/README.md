# neoqmllsp

A QML language server built on tower-lsp and tree-sitter, whose logic is a library
verified with Verus.

- `src/` is the library. `parse` runs tree-sitter's QML grammar and reads the tree into a
  plain `SyntaxNode`; everything else works on that tree and the source's lines:
  `gammer` (syntax-error ranges, id completion), `ast` (document outline), `complete`
  (completion at a position), `treehelper` (the text under a position) and
  `complete::qmllibs` (the modules that `.qmltypes` files describe). The tree that
  the parser builds for a text is named `qml_tree`; each public function states its
  result over spec functions of the tree it is given, or of that named tree where it
  parses the text itself.
- `tests/` runs the library on hand-built trees and on trees the real parser builds.
- `app/` is the server: command line, LSP over stdio or TCP, reading `.qmltypes` files
  and the `build/types.json` of C++-registered types.
