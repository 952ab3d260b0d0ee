# test_client_rs

A rollup test client and its latency report, with their logic verified in
Verus.

- `src/` is the verified library: `text` (trimming and the normalised key of
  a raw transaction), `number` (parsing unsigned integers in a radix,
  decimal numerals), `csv` (the arrival log's rows and header), `latency`
  (send times, row classification, the latency summary), `client` (the
  decisions of the request loop) and `clock` (milliseconds since the Unix
  epoch).
- `app/` holds the two programs: the client, which sends the JSON-RPC
  requests, sleeps between rounds and writes the arrival log and the run's
  metadata; and, when the binary runs as `latency_stats`, the report, which
  reads the files, takes the floating-point means and prints.
- `tests/` runs the library on concrete values.
