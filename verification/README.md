# oracle_exp_reader

A reader for Oracle classic `exp` dump files (`.dmp`), written in Verus:
the record framing, the column decoders, the event stream and the output
formats carry `requires`/`ensures` contracts that Verus proves.

## Layout

- `src/parser.rs`: record framing (`RecordIter`), header detection
  (`find_records_start`), header records, row data, length-prefixed
  strings, character sets and column decoding.
- `src/number.rs`: Oracle NUMBER, DATE and TIMESTAMP decoders.
- `src/reader.rs`: `DumpReader` (over the borrowed bytes of a dump) and the event
  iterator `EventIter`, specified step by step by `event_step`.
- `src/output.rs`: CSV, SQL INSERT and JSON Lines writers (each returns the
  text to write for an event) and `hex_dump`.
- `src/cli.rs`: the computing parts of the commands: counts for `info`,
  listing lines for `records`, DDL text, the export filter, offsets.
- `src/text.rs`: character-level helpers and the calls into std.
- `src/types.rs`, `src/error.rs`: record and column types, errors.
- `src/laws.rs`: properties that span several functions or calls, proved
  as proof functions.
- `app/`: the command line program (argument parsing, file access,
  printing).

Calls into `encoding_rs` (character set decoding) and `serde_json` (JSON
rendering) stand behind small trusted wrappers whose contracts name their
results; everything around them is verified.
