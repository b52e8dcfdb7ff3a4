# hackernews_mcp

A read-only Model Context Protocol server over the public Hacker News APIs
(Firebase for feeds, items and users; Algolia for search), split in two:

- `src/` — the verified library: the data model and output shapes
  (`types`), request URLs and query parameters and the request-order
  reassembly of concurrent fetches (`client`), the tool decisions — defaults,
  limits, messages, row shaping (`tools`), the capped breadth-first comment
  walk as a state machine with its laws (`comments`), and decimal rendering
  and parsing (`text`).
- `app/` — the program around it: the `reqwest` HTTP client, the `rmcp`
  server and its four tools, the serde wire forms of the library types, and
  the tokio entry point.

The comment tree is assembled as the original server assembles it: every
collected comment is nested under each collected comment that lists it as
a kid. The nesting is bounded by the number of collected comments, which a
chain of distinct replies never exceeds; only a reply cycle, on which
unbounded nesting would never end, is cut off at that depth.
