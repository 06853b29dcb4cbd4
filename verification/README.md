# ullam

Ullam turns ArduPilot DataFlash (BIN) flight logs into a compact, structured
form that a language model can reason about, and runs two model passes over
it: one that summarises each window of the flight, one that analyses the
whole flight.

## Layout

- `src/` is the verified library, written in Verus:
  - `format`, `message`, `providers`, `value`: decoding of DataFlash
    records and the per-message interpretation of their fields;
  - `chunking`, `grouping`, `preprocess`, `config`, `time`: the windowing of
    the message stream and the sorting of each window into snapshots and
    samples;
  - `aggregate`, `analysis`: the summaries and reports the model passes
    produce, and how they are shown;
  - `runtime`: the decisions around the local model server (which release
    archive to fetch, which endpoint to ask, when to report progress);
  - `text`, `fixed_bytes`: text and byte helpers the rest builds on.
- `app/` is the command-line program around the library: argument handling,
  file and network I/O, the model server, serde and floating-point work.
- `tests/` exercises the library on concrete values.
