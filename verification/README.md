# rusty-jenkins

`rj` is a command line client for the Jenkins REST API. It inspects and lists jobs, triggers
builds, streams console logs, reads and replaces job configurations, and sweeps a job over a list
of values of a build parameter or of an XML tag.

## Layout

- `src/` is the library: everything that the program decides. It is written in Verus: the
  contracts of its functions are proved, but for those of the wrappers named below.
  - `text`, `output`: characters, and the styled lines that are printed.
  - `http`, `headers`, `client`: requests and replies as plain values, the CSRF crumb, and job
    paths.
  - `xml`, `json`: documents as trees.
  - `cli`: the arguments, and what the global flags ask for.
  - `browser`, `chrome`: session cookies of Firefox and Chrome.
  - `commands`: one module for each command. Those that talk to the server more than once are
    machines: `action` or `step` says what is to be done next, and `handle` takes what came of it.
- `app/` is the program round the library: it reads the command line, sends requests, reads files
  and databases, sleeps and prints.
- `tests/` runs the library on concrete values.

What the library takes from other crates and from `std` without proof is marked `external_body` or
`assume_specification`; the comment above each such item says what is claimed of the other crate.
