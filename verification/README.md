# cqx

A code quality score for Rust workspaces, with every number traceable to the
line that caused it.

A workspace is read into a stream of facts: nodes (packages, files, symbols,
types, what they reach) and edges between them, each with the place it was read
at. Rules measure the stream; each takes at most its weight off a category that
starts at a hundred. The same stream loads into a graph engine, becomes the
dataset of an explorer, and answers an agent over MCP.

## Layout

`src/` is the library, verified with [Verus](https://github.com/verus-lang/verus).

| modules | what they hold |
|---|---|
| `text`, `table`, `measure`, `json`, `said`, `settings` | strings, ordered tables, numbers, JSON and TOML |
| `schema`, `wire`, `writer`, `facts` | nodes and edges, their form on a line, and streams of them |
| `vfs`, `manifest`, `extract` | a snapshot of a tree, its packages, and their files |
| `tree`, `syntax`, `prepass`, `visit` | what a file says, what the workspace knows, and the facts of both |
| `metrics`, `config`, `score`, `scan`, `sarif`, `summary` | measures, rules, scores, and how they are told |
| `ratchet`, `edit` | which way a change moves the standard, and making one |
| `history`, `view`, `query`, `mcp`, `frame` | commits, datasets, graph queries, an agent's questions, a browser's |
| `pieces`, `written`, `anchored`, `stable`, `accord` | what holds of the library as a whole |

`app/` is the program around it: files, git, the terminal and floating point.
`tests/` run the library on real sources.

## What is proved

Each function states what it returns. Beyond that:

- A workspace that several readers share, file by file, says what one reader of
  all of it says (`pieces`, `written`). What they found merges in any groups, and
  what is merged again says nothing new (`pieces`).
- A stream begins with its one header and says no node twice. Both ends of every
  edge are nodes of it, and everything that stands anywhere is contained in
  something said before it (`anchored`).
- Every edge shows the file and the lines it was read at (`written`).
- Ids do not change when code moves down a file (`stable`), and methods of two
  types in one module do not share one (`visit`).
- A member pattern names every directory that fits it and holds a manifest, and
  no other (`manifest`).
- Of edges that are the same, the first stays and no other is dropped (`facts`).
- Two configurations compared the other way round differ by the same changes
  undone. They are told in order: the configuration's own first, then those of
  the rules by name (`ratchet`).
- A finding is known by the same mark when the lines around it move (`sarif`).
- In a walk through commits each is told against the one before it (`history`).
- An agent can only make a rule stricter, and the document that a change writes
  puts in force what the change was judged by (`ratchet`, `edit`, `mcp`,
  `accord`).
