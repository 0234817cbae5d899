# sessio

Reading and writing of Droid agent sessions (JSON lines plus a settings
file) against a format-neutral session model, with the behaviour of each
function stated as a Verus contract and proved.

Layout:

- `src/text.rs`: Unicode white space, collapsing white space, title cutting,
  the Droid project slug of a working directory.
- `src/json.rs`: the JSON value model, member lookup, and compact JSON text.
- `src/time.rs`: instants, their order, RFC 3339 reading and writing (chrono).
- `src/ids.rs`: UUID normalisation and fresh ids (uuid).
- `src/paths.rs`: Unix path joining, file names, extensions, the settings path.
- `src/ir.rs`: the session model (metadata, events, content blocks).
- `src/droid.rs`: reading Droid records into a session, writing a session as
  Droid records, and where a session is written.
- `src/properties.rs`, `src/roundtrip.rs`, `src/preserved.rs`: laws over the
  above, among them that what is written reads back as stated, and which
  tool calls, tool results, reasoning lines, messages and instants survive
  writing and reading back.
- `app/lib.rs`: file reading and writing and the conversion between serde_json
  documents and the library's JSON values.
