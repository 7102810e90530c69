# hudi_core

Read-side building blocks of a client for Apache Hudi tables. The library in `src/` is verified
with [Verus](https://github.com/verus-lang/verus): every function states in its contract what it
returns, and the contracts are proved.

| Module | What it does |
| --- | --- |
| `avro`, `json` | Avro and JSON values, as the `apache_avro` and `serde_json` crates hold them |
| `avro_schema` | Avro schemas, and whether their values have an end |
| `batch` | Record batches: columns by name, projection, sorting, adaptation to a schema |
| `cast_bounds` | Whether a column can be cast within the bounds of a type |
| `cdc` | Change data capture: logging modes, and the change files that a commit names |
| `config`, `expr` | Table options and filters |
| `fixture` | The names and contents of the files of a minimal generated table |
| `keygen` | Key generators and partition columns |
| `metadata` | The metadata table: column statistics, the record-level index, and scans of both |
| `rows` | The rows of batches as texts |
| `schema` | Schemas and their reconciliation for schema-on-read |
| `statistics`, `stat_columns` | Column statistics by file or partition, and as columns of one value |
| `named`, `numeral`, `order`, `text`, `type_shape` | What the other modules share |

`schema_laws` and `fixture_laws` hold what is proved of reconciled schemas, of the batches that are
read with them, and of generated tables beyond the contracts of single functions.

What the outside crates do is trusted, not proved. Each item that is trusted says in its doc
comment which outside function it stands for and what is claimed of it.

`app/` is ordinary Rust around the library: storage and asynchronous reads, Arrow arrays of
floating point statistics, and files on disk. `tests/` runs the library with the outside crates.
