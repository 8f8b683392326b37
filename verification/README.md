# schema

A verified library for the `.schema` language's semantic model: names,
type references, declarations and the schema tree, with their canonical
text, the checks a tree must pass, the six-slot layout of a schema
document's root blocks, the source-form encoding of references,
the lowering of a source schema into the checked schema tree, the readers
of import entries and of canonical type references from blocks, the nominal
name table, content addresses, and the lineage graph of schema versions.

- `src/` is the library, written in Verus. Every function carries a
  contract, and the laws that span several functions are proof functions
  (their names start with `law_`).
- `tests/` runs the library on concrete values.
- `app/` is the edge around it: reading and writing `.schema` files, turning
  a file path into the name the raw reader uses, and an error type with
  human-readable messages.

The DOTOS document parser that the `.schema` syntax is read with is not part
of this crate: the library works on a model of DOTOS blocks (`DotosBlock`)
that a parser hands it.
