# dtsfmt

A formatter for Devicetree source files (`.dts`, `.dtsi`, Zephyr keymaps),
written in Verus.

- `src/parser.rs` parses a file with tree-sitter's Devicetree grammar and copies
  the syntax tree into `syntax::SyntaxNode`, with each node's text taken from
  the file. What tree-sitter gives is named (`devicetree_syntax`, read node by
  node through `node_contents`), and the copy is proved to be that tree, so
  `printer::print` is proved to give `formatted_source`: the formatted text of
  the file's own tree.
- `src/agreement.rs` proves that printing reads a tree only through its kinds,
  texts, flags and shape, so every copy of the parsed tree prints the same.
- `src/format.rs` says what text each kind of node becomes (`format_node`,
  `format_document` and the functions they use), and which trees cannot be
  printed.
- `src/printer.rs` prints a syntax tree; it is proved to write exactly the text
  that `format` describes, and to fail exactly on the trees it names.
- `src/context.rs` holds the state carried down the tree (indentation, nearest
  identifier, `#address-cells`/`#size-cells`, Zephyr keymap flags).
- `src/text.rs` holds the character-level helpers (trimming, splitting on
  whitespace).
- `src/laws.rs` states and proves properties of the printer that span its
  functions.
- `app/main.rs` is the command-line front end (file I/O, options, reporting of
  nodes without a printing rule).
