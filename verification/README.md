# ratatosk

A terminal viewer for tracing logs: it reads log lines (JSON records or
`key=value` text) from standard input, keeps the recent ones, shows errors
and warnings apart, and charts the mean latency of each API route.

The library under `src/` is verified with Verus:

- `text` — character classes, decimal numbers, substring search, cropping.
- `json` — JSON values as plain data and the parser call.
- `config` — field paths (`http.route`), reading route and latency from a
  record, and settling the configuration from command line, config file
  and environment.
- `stats` — the sliding window of latency samples of one route.
- `app` — the viewer state: bounded trace and error lists, scrolling,
  latency statistics, the bar chart, field-path suggestions and the
  configuration dialog.
- `layout` — screen rectangles and pop-up placement.
- `laws` — properties that relate several operations.

`app/main.rs` is the terminal front end (stdin, key events, drawing).
