# ypbank

Encoding and decoding of bank transactions in three formats (CSV, plain
text, binary), written in Verus: every codec states what it reads and writes
as a specification over byte and character sequences, and the library proves
that its code meets it.

## Layout

- `src/transaction/` — the record (`Transaction`), its type and status, the
  schema's field names, and `TransactionBuilder`, which assembles a record
  field by field.
- `src/codec/` — the `Decoder` and `Encoder` traits and the three formats
  `Csv`, `Txt` and `Bin`.
- `src/csv.rs` — a second CSV codec whose descriptions carry no quotes, read
  and written whole through `TransactionDecoder` and `TransactionEncoder`.
- `src/compare.rs` — comparison of two lists of transactions by identifier,
  and the report that `comparer` prints.
- `src/error.rs` — `ReaderError`, `WriterError` and their messages.
- `src/text.rs` — lines, trimming, splitting, decimal numbers and UTF-8, with
  the facts the codecs' proofs rest on.
- `app/` — the command-line tools: `converter` (and, invoked under that name,
  `comparer`).
- `tests/` — tests of the library on concrete inputs.

## What is proved

Besides the exact contract of each public function, the library proves that
each decoder reads back what its encoder writes:

- `codec::bin::lemma_bin_roundtrip` — for records whose description fits the
  `u32` record size;
- `codec::csv::lemma_csv_roundtrip` and `codec::txt::lemma_txt_roundtrip` —
  for descriptions enclosed in double quotes and free of line feeds;
- `csv::lemma_bare_csv_roundtrip` — for descriptions free of line feeds;

and these further laws:

- `compare::lemma_compare_self` — a list with distinct identifiers shows no
  difference from itself;
- `transaction::builder::lemma_build_after_all_fields` — setting all eight
  fields in any order, then building, gives the record of the values set;
- `codec::txt::lemma_txt_harmless_lines` — any number of comment lines, and
  of blank lines at the start, at the end or next to a blank line, leave a
  successful decoding unchanged (`lemma_txt_only_comments_and_blanks`: an
  input of such lines alone decodes to no transaction);
- `codec::bin::lemma_read_written_record` — a written record, whatever bytes
  follow it, reads back as its transaction, consuming exactly its bytes.

Errors of the text decoders give line numbers counted from one; in CSV the
header is line 1.
