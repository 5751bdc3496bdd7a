# ip_tools

A network diagnostics toolkit: it probes a target layer by layer (DNS, TCP,
TLS, HTTP, QUIC, route) and explains what the observations amount to, always
with evidence, a confidence and alternative causes.

- `src/` is the library. Everything that decides or computes stands here, with
  contracts that Verus proves: the observation model and its statistics, the DNS
  wire format, request building and response capture, the probe and exchange
  state machines, the diagnostic rules, the reports, and the command-line rules.
- `app/` is the `ip-tools` program: argument parsing, sockets, TLS and QUIC
  sessions, files and the terminal. It performs the steps the library asks for
  and hands back what happened.
- `tests/` runs the library on concrete values.

What the library takes on trust is marked where it stands, with a comment that
says what is claimed of the function behind it.
