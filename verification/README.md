# fi_slurm

Command-line reports on a Slurm cluster, with the logic behind them verified with Verus:

- `nodes`: the availability of nodes, cores and GPUs, as a tree of node features (the
  default), by Slurm state (`--detailed`) or per feature (`--summary`); and, with `--term`,
  a terminal dashboard of cluster use over time, read from Prometheus.
- `limits`: a user's and their center's running jobs against the limits of each partition
  they can submit to, or a leaderboard of current use (`--leaderboard`).

## Layout

- `src/` is the verified library. Every report is computed there from plain values: the
  hostlist and TRES parsers, node states, feature queries, the tree, detailed and summary
  reports and their table layouts, preemption, the limits tables and leaderboards, the
  Prometheus queries and series, and the dashboard's state machine and chart layout. Each
  public function states its result in its contract; the laws the reports keep (bars drawn
  against the top level's totals, bars that keep their width, queries whose `|` and `&` mean
  what separate arguments and `,` mean, and so on) are proof functions beside them.
- `app/` is the programs: argument handling, reading Slurm, the accounting database and
  Prometheus, drawing the dashboard, and printing with colors. It reads Slurm through
  `fi_slurm_sys`, the bindgen bindings to libslurm, which are generated against the
  cluster's Slurm headers and built alongside the programs.
- `tests/` runs the library on concrete clusters, jobs, queries and answers.
