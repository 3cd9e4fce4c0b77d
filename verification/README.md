# csslancer

The verified core of a CSS language server.

`src/` holds the library, every function of it proved by Verus against its
contract:

- `css_scanner`, `scan_spec`, `text`: the CSS scanner over a text stream, with a
  declarative specification of the token it reads at each position.
- `syntax_kind`, `token_set`, `lex_to_syn`, `input`, `shortcut`, `reparsing`,
  `css_grammar`: the token layer of the row-based parser — token kinds, the
  lexed text, the parser's input, and the tree-building steps with the trivia
  put back in place.
- `css_node_types`, `css_nodes`, `css_symbol_scope`: the kinds of syntax nodes, the
  nodes with their ranges and issues, error kinds, walks over trees of nodes (kept in
  `ego_tree` trees, whose shape the library models as a map from node to parent,
  children and value), and the tree of scopes with their symbols.
- `css_language_types`, `data_manager`, `entry`: CSS data (properties, at-rules,
  pseudo-classes, pseudo-elements), the manager that gathers it from providers and
  looks it up by name, and the hover texts made from it.
- `css_parser`: the parser's state over the scanner's tokens (taking a token, peeking,
  accepting, marks, resyncing, creating and finishing nodes, reporting errors once per
  token); the parse functions that read ahead by counting brackets (unknown at-rules,
  custom property values); and those of single tokens and short sequences (operators,
  numbers, strings, identifiers, hex colors, `!important`, property names, class and
  id selectors, the nesting selector, unicode ranges, named grid lines). Each is stated
  over the token stream a text scans to.
- `css_parts`: `url(...)` literals with their arguments, function names (with the
  `progid:` filters), namespace prefixes and element names, combinators, ratios, the
  names and range operators of media features, media and `@charset`, each stated as a
  function from what the parser holds before to what it holds after; and parsing a
  text with one of them into a tree.
- `config`, `ext`, `astgen`, `fuzz`, `logging`: settings, positions and
  encodings, helpers for writing out the syntax kinds, and CSS samples.

`app/` is the program around it: the protocol loop, tracing, the client's
capabilities, reading CSS data files, and the tool that writes out the syntax kind
declarations.

`tests/` runs the library on concrete inputs.

Not here yet: the rest of the recursive-descent parser (style sheets, rule sets,
compound selectors, declarations, expressions and terms, media and supports queries,
and the other at-rules), and the rules of the row-based grammar.
