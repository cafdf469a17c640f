# fwos

The programs of a small firewall appliance, with their decisions kept in a
library that [Verus](https://github.com/verus-lang/verus) verifies.

- `src/` is the library. Each function states in its contract what it returns,
  and Verus proves that it does. Nothing in it reads or writes anything: what a
  program finds out is handed to it as plain values, and what is to be done
  comes back as plain values. Longer exchanges are state machines: an attempt
  and what came of the last step make the next step.
- `app/` is the ordinary Rust around it: files, sockets, password hashes
  and the commands that change the network. One binary is all programs, and
  runs as the one whose name it is called by: `fwos`, `fwos-fwd-setup`, `netd`,
  `fwos-ui` or `fwos-update`.
- `tests/` runs the library.

## Modules

| Module | What it decides |
| --- | --- |
| `text`, `ip`, `json`, `documents` | texts, addresses, JSON and TOML |
| `desired`, `bootstrap_values`, `policy` | the state of the network and the rules that it keeps |
| `exposure`, `nft` | where the web interface is reached, and the firewall rules |
| `lan`, `links`, `steps`, `opt`, `startup` | what the network commands say, and the plans that change the network |
| `footprint`, `journal`, `apply`, `recovery` | how one state takes the place of another, and how it is gone back from |
| `identity`, `bootstrap` | accounts, and who owns the appliance |
| `commands`, `reports` | what is asked of the network daemon, and its replies |
| `http`, `web`, `tls`, `console`, `update` | the web interface, the consoles and the updates of the host |

Functions whose name begins with `law_` state what holds of several of them
together.
