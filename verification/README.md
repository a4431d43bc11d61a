# wsblast

A WebSocket load-testing tool: it opens many connections to a target,
sends and receives messages at a configured pace, records handshake and
round-trip latencies in HDR histograms, classifies failures, and reports the
results as terminal tables, JSON or Markdown, gating CI pipelines on service
level objectives (exit code 2 when one is breached).

## Layout

- `src/` is the library, written in Verus and verified:
  - `config`, `numeric`, `headers`, `cli`: validation of the command line
    into a configuration (durations, thresholds, headers, payloads);
  - `metrics`, `hdr`, `ratio`: per-worker metrics, their aggregation, and
    the histogram interface;
  - `report`, `tables`, `terminal`, `binary64`, `rate`, `text`: SLO
    evaluation and the rendering of reports, with rates and thresholds
    computed as 64-bit floats compute them;
  - `worker`, `runner`, `tui`: the decisions of worker sessions, of
    the run driver and of the live dashboard;
  - `error`, `time`: error types and a nanosecond duration.
- `tests/` exercises the library.
- `app/` is the binary: argument parsing, the network loops on tokio and
  tokio-tungstenite, the terminal dashboard on ratatui, JSON output with
  serde, and file and terminal output.
