# fin

The syntax of the fin language: a lexer, a parser that builds a lossless
concrete syntax tree (CST), and a typed AST view of that tree. The library
under `src/` is written in Verus and verified.

- `cstgen::lexer` splits source text into tokens (longest match; a literal
  beats an identifier of the same length). Its contract: the tokens are
  those of the token grammar, their texts put together give the source back,
  and their spans are byte offsets that tile the source.
- `cstgen::grammar` states the grammar as functions on token sequences;
  `cstgen::steps` holds the steps they are made of.
- `cstgen` (the parsing routines) and `cstgen::parser` drive the tree
  builder; each routine is proved to do what its grammar function says.
  `cstgen::lower` gives the tree of a source that parses, whose text is the
  source itself; `cstgen::try_lower` says why a source does not parse.
- `cstgen::lossless` proves, on the grammar itself, that parsing keeps all
  the text, that each construct adds exactly one node holding the tokens it
  took, and that an expression head stops exactly where no expression starts.
- `green` holds the immutable trees and the builder that makes them.
- `unicode` holds the character classes: ASCII answers and White_Space are
  stated; non-ASCII XID_Start/XID_Continue come from unicode-ident.
- `astgen` views the tree through AST types; each cast gives the type or
  variant that the node's kind calls for, and each accessor is proved to
  return the children of the kinds it looks for, in order.

`app/` holds what cannot be verified: the salsa file database, and the
conversion of trees to rowan trees for printing and tooling.
