# trustworthiness_checker

A runtime monitor for LOLA-style stream specifications, written in Verus.
The library in `src/` is verified; `app/` is a small command-line program
around it.

## Library (`src/`)

- `values` — stream values and variable names, with their models.
- `ast` — expressions, operators and specifications (`Specification`).
- `parser` — the specification language, as a grammar over characters and a
  reader proved to follow it.
- `solver` — absolute expressions, the constraint store, and simplification
  of expressions against the store.
- `deps` — dependency managers: how long the values of each variable must be
  kept.
- `runtime` — the constraint-based runtime: receiving inputs, resolving
  outputs to a fixpoint, cleaning up, and whole steps.
- `combinators` — stream operators over values that may be unknown.
- `dist`, `dist_parser` — distribution constraints, their grammar, and their
  checking along the paths of a distribution graph (paths come from
  petgraph).
- `display` — the text of values, constraint bodies and context identifiers.
- `topics` — the topics of the ROS/MQTT bridge and its routing decisions.
- `var_manager` — the decisions of a stream variable's manager.
- `laws` — properties relating several operations, proved.

## Program (`app/`)

    app <model file> --input-file <inputs.json> [--dependencies empty|dep-graph]

reads a specification and a JSON object mapping each input stream to its
values, runs the constraint-based runtime step by step, and prints each
output value as `name[step] = value`.
