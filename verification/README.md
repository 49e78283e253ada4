# multiraft

The decisions of a node that runs many Raft groups, verified with Verus.

The library under `src/` holds no I/O. Its functions take what was read or answered, and give back
what is to be written, sent or told; their contracts say exactly what that is.

- `frames`, `log_table`, `file_log`, `log_open`, `log_laws`, `flush`, `rewrite`, `stream_control`,
  `durability`: a group's log in files. Appends, flushes, truncation, purging and reopening keep the
  file and the log in memory in step.
- `catalog`, `snapshot`, `recovery`: durable snapshots, their advertisements, and recovering a group
  from them.
- `multiraft`, `group_setup`, `cluster_glue`, `proposals`, `membership`, `router`, `node`,
  `standby_throttle`: a node, its groups, its members, and its links.
- `plugin` and the `plugin_*` modules, `stage_metrics`, `transition_loop`: plugins and what they are
  asked.
- `config`, `type_config`, `error`, `duration`, `order`, `text`: shared types, orders and texts.

Public proof functions called `law_…` state what holds across several functions.

The program under `app/` performs the work: files, channels, timers, Raft itself, and the command
line of the operator's tool.
