# nporter

An nftables port-forwarding manager: a command line, a terminal UI, target
latency probes, optional UFW route-rule reconciliation and a Prometheus
liveness endpoint.

The library in `src/` is verified with Verus. It holds the project's logic:

- `config` — the validation every config change passes through, with
  `lemma_validate_iff` stating exactly which configs are valid;
- `ip` — the IPv4/IPv6 address text grammar;
- `nft` — the desired rule set, its rendering, rule identity comments, the
  incremental apply plan and the structure of each kernel rule;
- `ufw` — the UFW route rules a config asks for, parsing `ufw show added`
  and the reconciliation plan;
- `cli` — what each command does to the config and prints;
- `tui` — the rule manager's state, key handling and screen texts;
- `probe`, `metrics` — the decisions around target probes and the exporter.

`app/` is the program around it: argument parsing, the TOML file, netlink,
running `ufw` and `ping`, the exporter's listener and the terminal drawing.
