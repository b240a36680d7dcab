# sparkx

A small distributed SQL engine. What decides and computes is in `src/` and proved with Verus; what
reads files, talks to the network, turns messages into JSON or looks at the clock is in `app/`, which
is not proved.

- `sql/`, `logical`, `optimizer`, `simplify`, `planner`, `physical`: from SQL to a physical plan
- `evaluate`, `kernels`, `row_key`, `execution/`, `table`, `session`: a plan at work over tables in
  memory
- `values`, `rewriting`, `regrouping`, `rejoining`: what the optimizer rewrites gives the same rows
- `distributed/`: partial aggregates over partitions, their merge, and that placement changes no rows
- `wire/`, `plan_codec/`, `fragment`: plans as bytes, and that planned queries survive the way
- `protocol`, `coordinator/`, `control_plane`, `worker`, `remote`, `cluster/`: stages, leases, retries,
  blocks and joins across workers, and that such a join gives the rows of one in one place
- `pruning`: which parts of a file no row of a query can be in

`kernels`, `text`, `sql::tree`, `wire::slots`, `cluster::hash_exchange` and `session` call other crates
through small functions whose contracts are taken on trust; each says which call it makes and what is
claimed of it. Floating-point numbers are held by their bits.

`app/` is one binary for three programs, told apart by the name it is started under: `sparkx`,
`sparkx-coordinator` and `sparkx-worker`.
