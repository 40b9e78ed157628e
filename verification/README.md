# code_review_agent

A code review bot: it collects the diff of the current branch, lets a
language model inspect the repository through a few read-only tools, and
posts the model's review as a GitLab merge request note.

The library under `src/` holds the logic, each function with a contract
proved by Verus:

- `agent/` — messages exchanged with the model, the streaming-response
  accumulator and line buffer, turn reminders, token telemetry.
- `tools/` — the tools' logic: the file tree (building, sorting,
  rendering, limits), line selection for `read_file`, merging and
  formatting of search results, argument types and messages.
- `utils/` — byte and token counts in human-readable form, directory
  listings, git output parsing and base-branch resolution, the system
  prompt template.
- `publisher/` — the GitLab target, note URL and footer.
- `config.rs`, `stream.rs`, `text.rs`, `order.rs`, `headers.rs` — the
  configuration checks, the console printer's decisions, text and ordering
  helpers, HTTP header values.

`app/` is the program around it: command-line parsing, HTTP, the file
system, git processes and printing.

## The file tree's children

A tree node keeps its children in a `Vec` in insertion order, with no two
sharing a name, rather than in an `indexmap::IndexMap<String, TreeNode>`.
Verus refuses a declared outside type whose parameter is the type being
declared ("recursively uses type ... in a non-positive position"), and an
opaque holder around the map leaves the recursive rendering and sorting
without a termination measure. So the uniqueness and order that the map
gave are the node's invariant, and the children are ordered by a verified
stable insertion sort (`order.rs`) in place of the map's `sort_by`.
