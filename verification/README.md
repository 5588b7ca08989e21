# csdl_edm

Reading, resolving, validating and writing OData CSDL documents (the XML and
JSON forms of an Entity Data Model), verified with Verus.

## Layout

- `src/` — the verified library.
  - `csdl.rs`, `expr.rs`: the syntactic CSDL model and annotation expressions.
  - `csdl_xml_reader.rs`: CSDL XML, tokenized by `quick-xml`, read into syntax units.
  - `csdl_json_reader.rs`: CSDL JSON (as a `JsonValue`) read into the same syntax units.
  - `json.rs`: JSON values, and JSON text parsed by `serde_json`.
  - `parser.rs`: syntax units assembled into an element tree and read into a `CsdlDocument`.
  - `resolver.rs`, `resolver/`: reference resolution into the semantic model (`edm.rs`);
    `resolver/rendering.rs`: resolved partner and binding paths render back as written.
  - `validator.rs`, `validator/`: the semantic validation rules.
  - `graph.rs`: the resolved model as a graph of nodes, edges and paths.
  - `path_expansion.rs`: the resource paths an entity container spawns, with their navigation paths.
  - `serialization.rs`, `serialization/xml.rs`: a document as a CSDL JSON value and
    as the XML events of its CSDL XML form; `serialization/xml_text.rs`: those events
    put down as text by `quick-xml`'s writer.
  - `json_read_back.rs`: what the JSON reader gives back of a written expression, and
    of a written document whose schemas hold annotations.
  - `tree_units.rs`: the syntax units that spell an element tree, which assemble into that tree.
  - `text.rs`, `error.rs`: text utilities, errors.
- `app/` — file and stream I/O, `serde_json` printing, and
  the copies of library types that carry `serde` and `thiserror` derives.
- `tests/` — tests of the library.
