# callix

Reads C, C++, Go and PHP sources into one graph of nodes and directed relations,
with the service boundaries where one program meets another.

- `src/` is the library, verified with Verus: the graph and its queries, merge,
  diff and links, ids, route keys, build manifests, and for each language the
  extraction of structure, places of use and service boundaries.
- `tests/` runs it.
- `app/` holds what touches files, tools and Python.

What the library promises as a whole is stated in the public proof functions of
`routes`, `services`, `links`, `merge`, `diffing`, `queries`, `paths`,
`cfamily::headers`, `cfamily::formats` and `php::symbols`.

Parsing, hashing, JSON and the ordered index come from `tree-sitter` and its
grammars, `sha2`, `serde_json` and `indexmap`. Their results are described by the
contracts of the few functions that call them, in `tree`, `ids`, `json`, `index`
and `text`.

There is no floating point in the library. The confidence of a port is in whole
hundredths, the confidence of a link in whole hundred-millionths, and both are
compared on the one scale; times are whole microseconds. Paths are texts with `/`
between their components, and two of them are compared by these.
