# parquet_lite

A lightweight reader for Parquet files, written in Verus: every function in
`src/` carries a contract, and Verus proves each one but those of the few
functions that call `snap` or std directly, whose contracts are trusted.

What the library reads:

* the footer's `FileMetaData`, through a hand-written Thrift Compact Protocol
  reader (`thrift`, `metadata`);
* the pages of a column chunk: their headers (`page`), Snappy decompression
  through the `snap` crate (`codecs`), and plain-encoded values (`decode`);
* whole columns (`reader`) and batches of rows over selected columns
  (`batch_iter_advanced`);
* a stream, chunk by chunk (`streaming_reader`);
* the values and types that columns take as Apache Arrow arrays
  (`arrow_convert`).

It also holds a fluent schema builder (`schema`) and per-column statistics
(`statistics`). Floating-point values are kept as their IEEE 754 bit patterns,
and a compression ratio as the two sizes it is the quotient of.

Layout:

* `src/` is the verified library. Each module states what it computes as spec
  functions over byte sequences and models of its types; the public proof
  functions (`lemma_*`) state properties that span functions.
* `tests/` runs the library on concrete inputs, among them a small Parquet file
  assembled byte by byte.
* `app/` is ordinary Rust around the library: Arrow arrays and record batches
  built from the library's values, errors with their display messages, floats
  as numbers, printed statistics and the WASM bindings.
