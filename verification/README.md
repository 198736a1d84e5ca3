# sysmon

A panel applet that shows the load, memory and power of this machine and of a few
remote nodes, and the small agent that runs on those nodes. What both of them
decide and compute is a verified library; what they read, draw and send stands
around it.

## The library (`src/`)

| Module | What it holds |
| --- | --- |
| `text`, `ieee`, `order`, `digest`, `json` | texts, floating-point bits, stable sorting, SHA-1 and Base64, JSON documents |
| `procfs`, `procs` | the process table, searching and sorting it, signals |
| `sensors`, `hardware` | counters and sensor files of a machine |
| `config`, `cache`, `link` | settings, the cache that panel instances share, the connection to an agent |
| `spark`, `summary` | the values of the nodes and what is said about them |
| `install` | the installation of an agent over SSH, step by step |
| `agent`, `commands`, `engines`, `http`, `sockets`, `websocket`, `snapshot` | the node agent: arguments, commands, language model servers, client counting, frames, the pushed document |
| `exchange` | what applet and agent understand of each other |
| `applet`, `startup` | the state of the applet: messages in, effects out |
| `layout`, `pieces`, `pages`, `remote`, `panel` | what the panel and the pages of the popup show |

Fractions are carried as the bits of their floating-point representation.
Comparing, rounding to single precision and converting to integers is done on the
bits and verified (`ieee`); arithmetic and formatting is not, and happens in the
program.

State machines return what is to be done outside as values: `Sysmon::update`
gives `Effect`s, `Installer::advance` gives `Action`s, `Probe::advance` gives
`ProbeAction`s.

Public proof functions state what holds of the library as a whole; each stands at
the end of the section whose functions it speaks of.

## The program (`app/`)

`main.rs` is both programs: called as `megatron-sysmon-agent` it is the node
agent, otherwise the applet. The agent programs, the systemd unit and the
installation script that the installer copies to a node are read from
`$SYSMON_AGENT_DIR`, by default `/usr/share/cosmic-applet-sysmon/agent`.

## What is trusted

`text` declares `String::push`, `str::to_lowercase` and
`String::from_utf8_lossy`; `json` wraps the reading and writing of serde_json.
Everything else in `src/` is proved.
