# rsword

A verified editing engine for WordprocessingML packages (`.docx`), written in Verus.

The library keeps a package as parts, each XML part as an arena tree (`Dom`), and a
projection of the main part's paragraphs as text blocks. Every edit is a `MutationPlan`:
a list of mechanical node edits that is validated against the tree and then committed.
Each public operation has a contract over the tree, the package and the projection, and
Verus checks the code against it. Where a contract leaves an outcome open (for instance
whether a part that has to be created can be created), the operation's doc comment says
so.

What is here: the XML reader (`Dom::parse`, whose result is specified node by node by
`parse::xml_tree`), node edits and plans, packages, parts, relationships and content
types, the projection, and the operations on drawings, pictures, shapes, charts,
watermarks, sections, headers and footers, revision markers and simple text runs.

What is not here: inserting and deleting text in paragraphs, table rows and columns,
comments, field updates, the full set of operations as data (only eight kinds of
`EditOp`), transactions with rollback, and reading or writing the `.docx` archive.

Layout:

- `src/` — the library, verified by Verus.
  - `dom.rs`, `edit.rs`, `plan.rs` — the tree, the node edits and their effect, plans.
  - `parse.rs`, `xml.rs` — XML parsing into trees, element builders.
  - `package.rs`, `session.rs`, `document.rs` — parts and relationships, the editing
    session, the projection.
  - `drawing.rs`, `geometry.rs`, `image.rs`, `shapes.rs`, `sections.rs`, `twin.rs`,
    `track.rs`, `marks.rs`, `revert.rs`, … — the editing operations.
  - `ops.rs` — operations as data (`EditOp`) and their dispatch.
  - `laws.rs` — properties stated across several operations.
- `tests/` — ordinary Rust tests of the library.
- `app/` — the parts that stay outside verification: serde copies of library types and
  the drawing operations that compute with floating point.
