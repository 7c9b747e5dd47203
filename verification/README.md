# docker_statistics_ui

The core of a dashboard that gathers the CPU, memory and state of Docker
containers from agents on several VMs, grouped into environments, written in
Verus with its behaviour stated in contracts and proved.

- `src/` is the verified library:
  - `str_map`: a string-keyed map kept in `String` order, the model of every map.
  - `text`: string search, splitting, ordering and number parsing.
  - `metrics_history`: the sliding windows of recent samples (150 per metric).
  - `models`, `metrics_cache`, `data_cache_by_env`: the agents' reports, the
    per-VM cache that keeps the sample histories, the per-environment caches,
    the VM totals and the rows of the container list.
  - `settings`, `server_settings`, `ssh_settings`, `ssh_certs_cache`: the
    settings file's model, agent URLs and how each is reached (directly or
    through an SSH gateway, with the key of the gateway or the shared `"*"`
    key), and which environments each user may see.
  - `main_state`, `dialog_state`, `dashboard`, `show_logs`, `selected_vm`: the
    page state: selection, filtering and stable sorting of rows, "All VMs"
    totals, the log dialog and the decoding of a container's log stream.
  - `timers`: what a refresh does with each agent's answer.
- `tests/` runs the library on concrete values.
- `app/` is a console program around the library: it reads
  `~/.docker-statistics-ui`, asks the agents for statistics every 3 seconds,
  prints the totals of the environments the user named with `--user` may see,
  and prints a container's log with
  `logs <env> <url part> <container id> [lines]`.
