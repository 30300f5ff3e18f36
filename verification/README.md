# ronin_make

The rules of a GNU Make front end over a Ninja-style build graph, written in
Verus: what a command line and `MAKEFLAGS` ask for, how a Makefile's rules and
edges become one graph, how recursive recipes are composed into it, what is
remade before the goals are built, and what a run leaves behind for the next.

- `src/` is the verified library. Byte strings are `Vec<u8>`; every type that
  is more than its fields has a ghost model, and contracts speak of models.
- `tests/` runs the library on concrete values.
- `app/` is the process around it: environment, files, threads and commands. The
  evaluator that reads Makefiles and the scheduler that builds a graph are traits
  there.

Reading order: `bytes`, `options`, `invocation`, `parsing`, `makeflags`,
`command` for command lines; `carrying`, `hearing` and `updating` for what a
child is told; `graph`, `sink`, `declaring`, `edging`, `edges`, `composing`,
`order` and `failing` for the graph; `session`, `child`, `recipe`, `remake`,
`inputs`, `preparing`, `warm` and `ahead` for a run; `codec`, `artifact`,
`record` and `cache` for what is left behind; `describing`, `equivalence` and
`oracle` for two graphs held against each other.

Outside code the library calls stands behind the wrappers at the end of
`bytes.rs`, each with the claim it makes.
