# MagGraph

A knowledge graph kept as Markdown files with YAML frontmatter: nodes link to each
other through frontmatter `links` and `[[wikilinks]]`, and the graph is indexed,
traversed, searched, summarized for agents, synchronized through Git and, in
lakehouse mode, resolved against external content.

## Layout

- `src/` — the library, written in Verus. Its functions carry contracts and are
  verified, except a few small trusted wrappers around the standard library and
  `chrono` (character conversion, `{:?}` formatting, reading the clock, RFC 3339
  parsing), whose contracts are stated and believed: frontmatter splitting and framing, wikilink extraction, the index and its
  updates, adjacency and breadth/depth-first traversal, keyword and hybrid search
  signals, recall bundles, memory batches, schema introspection and the `SKILL.md` /
  MCP artifacts, URI resolution, IP-literal checks against server-side request forgery, content
  resolvers (with room for custom ones) and the content cache with its expiry rule, write
  policy and lock decisions, sync decisions, and the command-line reports.
- `app/` — the `maggraph` command-line tool around the library: argument parsing,
  reading and writing files, YAML and TOML decoding, Git operations, the local web
  dashboard, and the floating-point scoring of hybrid search.
- `tests/` — tests of the library.

Verified facts of the library include: a created, updated or merged node reads back as
written; a memory batch either changes nothing or applies every operation in order;
breadth-first traversal reaches every node within the depth limit at its shortest
distance; the content cache never holds more than its byte limit; a framed node splits
back into its frontmatter and body.
