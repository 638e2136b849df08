# govee_cli

A command-line controller for lights on the local network that speak the
Govee LAN protocol (scan, status, power, brightness, color, and aliases
kept in `~/.config/govee-cli/aliases.toml`).

- `src/` is the verified library (Verus): the message model and command
  packets (`packet`), IPv4 and hexadecimal color parsing (`ipv4`, `hex`),
  the alias table and alias file rules (`alias`), naming of newly found
  devices (`naming`), scan filtering, status replies and the pairing
  animation as a state machine (`net`), and the command model (`cli`).
- `app/` is the program around it: argument parsing with clap, JSON and
  TOML with serde, UDP sockets and timers with tokio, files and the terminal.
- `tests/` runs the library on concrete values.
