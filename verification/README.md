# ssh-key-sync (verified core)

`ssh-key-sync` synchronizes SSH public keys between trusted hosts of one synchronization
group. This crate holds its logic as a Verus-verified library; `app/` is the command-line
program around it (argument parsing, environment, files, processes).

The key-exchange runtime itself (signed HTTP exchange, UDP discovery, loading the local
public key and writing the managed `authorized_keys` block) is not included: its modules
are not part of this source tree. `start` and `sync` therefore validate their configuration
and then report that the runtime is unavailable, without starting a daemon; `status` and
`stop` work on the daemon control files as described below.

Layout:

- `src/config.rs` — resolution of the configuration with precedence CLI > ENV > config
  file, validation of SID, SID_TOKEN and sync interval, normalized and deduplicated
  bootstrap peers; laws on precedence and on every loaded configuration.
- `src/debug_text.rs` — debug text of a configuration; the SID token never appears in it.
- `src/key_values.rs` — text map with `HashMap` insert/get semantics.
- `src/envelope.rs` — signed envelope text format and hex body; proof that reading back a
  written envelope gives the same envelope.
- `src/http.rs` — request head scanning and parsing, bodies, response and request texts.
- `src/peers.rs` — bootstrap peer notation `<participant_id>@<address>:<port>` or
  `<address>:<port>`, listen addresses, endpoint merging, sync schedule.
- `src/control.rs` — control directory `${XDG_RUNTIME_DIR}/ssh-key-sync/<sid>/` (fallback
  `~/.local/run/ssh-key-sync/<sid>/`), pid/stop/log files, SID discovery, stop decisions.
- `src/runtime.rs`, `src/text.rs` — errors, status, text primitives.

