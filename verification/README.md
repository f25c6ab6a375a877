# voidmetrics-agent

The VoidMetrics agent connects to its core over a WebSocket (`WS /ws`),
introduces itself, sends metrics batches (CPU, load, memory, swap, disk,
network, GPU, and a process list) and answers the core's commands
(`set_process_stream`, `reconnect`, `refresh_inventory`, `diagnose`,
`docker_ps`, `logs`).

## Layout

- `src/` — the library, verified with Verus: the command line, the settings
  taken from the environment, the agent id kept on disk, disk and network
  totals, the ranked process list, and the replies to the core's frames
  and commands.
- `app/` — the program around it: reading the machine (`sysinfo`,
  `nvidia-smi`, `ps`, `docker`), the environment and files, the WebSocket
  connection, JSON frames, and daemonising.
- `tests/` — tests of the library.

## Settings

Command line: `--core-url <ws-url>`, `--auth-key <token>`, `--daemon`,
`--agent-id <uuid>`, `--agent-id-file <path>`, `-h`/`--help`.

Environment: `VOIDMETRICS_CORE_URL`, `VOIDMETRICS_AGENT_TOKEN`,
`VOIDMETRICS_AGENT_TOKEN_FILE`, `VOIDMETRICS_AGENT_ID`,
`VOIDMETRICS_AGENT_ID_FILE`, `VOIDMETRICS_INTERVAL_SECONDS`,
`VOIDMETRICS_RECONNECT_SECONDS`, `VOIDMETRICS_PROCESS_LIMIT`,
`VOIDMETRICS_SEND_ALL_PROCESSES`, `VOIDMETRICS_PROCESS_INTERVAL_SECONDS`,
`VOIDMETRICS_INCLUDE_COMMAND`, `VOIDMETRICS_INCLUDE_PATHS`,
`VOIDMETRICS_INCLUDE_ENVIRONMENT_COUNT`, `VOIDMETRICS_MAX_COMMAND_LENGTH`,
`VOIDMETRICS_MAX_PATH_LENGTH`.
