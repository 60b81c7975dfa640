# life_of_pi

A Raspberry Pi monitoring dashboard. The library (`src/`, verified with Verus)
holds the logic: reading the kernel's text interfaces (`/proc/cpuinfo`,
`/proc/meminfo`, `/proc/loadavg`, thermal zones, `vcgencmd` output, `hostname -I`
and `ip route` output), the records of a metrics snapshot, the GPIO status model,
the web server configuration and the registry of connected dashboard clients.

- `src/text.rs`, `src/number.rs`: a character-level model of the `str` operations
  the parsers use (trim, lines, words, split, find, integer parsing, decimal output).
- `src/metrics/`: CPU, memory, storage, network, system, thermal and GPIO logic.
- `src/web/`: server configuration, the client registry, the health report.
- `app/`: the program around the library: system access through sysinfo, rppal,
  files and commands; floating point figures; the axum server and WebSocket
  streaming; serde copies of the records.
