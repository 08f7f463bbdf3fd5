//! Verified core of `ssh-key-sync`, a daemon that synchronizes SSH public keys between
//! trusted hosts of one synchronization group.
//!
//! - `config`: configuration from command line, environment and a `KEY=VALUE` file.
//! - `debug_text`: the configuration's debug text, with the group token masked.
//! - `key_values`: the text map that holds environment and file values.
//! - `envelope`: the line-based wire format of signed envelopes.
//! - `http`: HTTP/1.1 framing of key exchange requests and responses.
//! - `peers`: bootstrap peers, listen addresses, endpoint sets and the sync schedule.
//! - `control`: daemon control paths and the decisions of `status` and `stop`.
//! - `runtime`: runtime errors and daemon status.
//! - `text`: character-level primitives (trimming, splitting, decimal numbers).
pub mod config;
pub mod control;
pub mod debug_text;
pub mod envelope;
pub mod http;
pub mod key_values;
pub mod peers;
pub mod runtime;
pub mod text;
