//! Configuration: command-line values, environment and a `KEY=VALUE` file, resolved
//! with the precedence CLI > ENV > file.
use vstd::prelude::*;

use crate::key_values::KeyValues;
use crate::text::{
    ascii_lowercase, chars_eq_str, chars_of, is_trimmed, join, lemma_split_append_plain, lemma_split_join,
    lemma_split_once_concat, lemma_split_pieces_free, lemma_split_push_sep, lemma_trim_free,
    lemma_trim_is_trimmed, lemma_trim_of_trimmed, lowercase_vec,
    parse_unsigned, parse_unsigned_vec, same_chars, split, split_once, split_once_vec, split_vec,
    string_of, trim, trim_str, trim_vec, views,
};

verus! {

pub const DEFAULT_HTTP_LISTEN_ADDR: &'static str = "0.0.0.0:9922";

pub const DEFAULT_UDP_ANNOUNCE_ADDR: &'static str = "0.0.0.0:9923";

pub const DEFAULT_SYNC_INTERVAL_SECS: u64 = 30;

pub const DEFAULT_PUBLIC_KEY_PATH: &'static str = "~/.ssh/id_ed25519.pub";

pub const DEFAULT_AUTHORIZED_KEYS_PATH: &'static str = "~/.ssh/authorized_keys";

pub const UNKNOWN_PARTICIPANT: &'static str = "unknown-participant";

/// The resolved configuration of one participant.
#[derive(Clone, PartialEq, Eq)]
pub struct AppConfig {
    pub sid: String,
    pub sid_token: String,
    pub participant_id: String,
    pub http_listen_addr: String,
    pub udp_announce_addr: String,
    pub bootstrap_peers: Vec<String>,
    pub sync_interval_secs: u64,
    pub public_key_path: String,
    pub authorized_keys_path: String,
    pub tls_cert_path: Option<String>,
    pub tls_key_path: Option<String>,
    pub tls_ca_path: Option<String>,
    pub tls_server_name: Option<String>,
    pub insecure_no_tls: bool,
    pub dry_run: bool,
}

/// What an `AppConfig` holds, as mathematical text.
pub struct AppConfigView {
    pub sid: Seq<char>,
    pub sid_token: Seq<char>,
    pub participant_id: Seq<char>,
    pub http_listen_addr: Seq<char>,
    pub udp_announce_addr: Seq<char>,
    pub bootstrap_peers: Seq<Seq<char>>,
    pub sync_interval_secs: u64,
    pub public_key_path: Seq<char>,
    pub authorized_keys_path: Seq<char>,
    pub tls_cert_path: Option<Seq<char>>,
    pub tls_key_path: Option<Seq<char>>,
    pub tls_ca_path: Option<Seq<char>>,
    pub tls_server_name: Option<Seq<char>>,
    pub insecure_no_tls: bool,
    pub dry_run: bool,
}

/// The views of a sequence of texts.
pub open spec fn texts(v: Seq<String>) -> Seq<Seq<char>> {
    Seq::new(v.len(), |i: int| v[i]@)
}

pub open spec fn opt_string(o: Option<String>) -> Option<Seq<char>> {
    match o {
        Some(s) => Some(s@),
        None => None,
    }
}

pub open spec fn opt_str(o: Option<&str>) -> Option<Seq<char>> {
    match o {
        Some(s) => Some(s@),
        None => None,
    }
}

impl View for AppConfig {
    type V = AppConfigView;

    open spec fn view(&self) -> AppConfigView {
        AppConfigView {
            sid: self.sid@,
            sid_token: self.sid_token@,
            participant_id: self.participant_id@,
            http_listen_addr: self.http_listen_addr@,
            udp_announce_addr: self.udp_announce_addr@,
            bootstrap_peers: texts(self.bootstrap_peers@),
            sync_interval_secs: self.sync_interval_secs,
            public_key_path: self.public_key_path@,
            authorized_keys_path: self.authorized_keys_path@,
            tls_cert_path: opt_string(self.tls_cert_path),
            tls_key_path: opt_string(self.tls_key_path),
            tls_ca_path: opt_string(self.tls_ca_path),
            tls_server_name: opt_string(self.tls_server_name),
            insecure_no_tls: self.insecure_no_tls,
            dry_run: self.dry_run,
        }
    }
}

/// Whether `sid` and `sid_token` must be present.
#[derive(Debug, Clone, Copy, PartialEq, Eq, Structural)]
pub enum ConfigMode {
    RequireSyncConfig,
    AllowMissing,
}

/// The values given on the command line.
#[derive(Debug, Clone, PartialEq, Eq)]
pub struct ConfigInput<'a> {
    pub sid: Option<&'a str>,
    pub sid_token: Option<&'a str>,
    pub participant_id: Option<&'a str>,
    pub http_listen_addr: Option<&'a str>,
    pub udp_announce_addr: Option<&'a str>,
    pub bootstrap_peers: Option<&'a str>,
    pub sync_interval_secs: Option<u64>,
    pub public_key_path: Option<&'a str>,
    pub authorized_keys_path: Option<&'a str>,
    pub tls_cert_path: Option<&'a str>,
    pub tls_key_path: Option<&'a str>,
    pub tls_ca_path: Option<&'a str>,
    pub tls_server_name: Option<&'a str>,
    pub insecure_no_tls: bool,
    pub dry_run: bool,
    pub config_path: Option<&'a str>,
}

pub struct ConfigInputView {
    pub sid: Option<Seq<char>>,
    pub sid_token: Option<Seq<char>>,
    pub participant_id: Option<Seq<char>>,
    pub http_listen_addr: Option<Seq<char>>,
    pub udp_announce_addr: Option<Seq<char>>,
    pub bootstrap_peers: Option<Seq<char>>,
    pub sync_interval_secs: Option<u64>,
    pub public_key_path: Option<Seq<char>>,
    pub authorized_keys_path: Option<Seq<char>>,
    pub tls_cert_path: Option<Seq<char>>,
    pub tls_key_path: Option<Seq<char>>,
    pub tls_ca_path: Option<Seq<char>>,
    pub tls_server_name: Option<Seq<char>>,
    pub insecure_no_tls: bool,
    pub dry_run: bool,
    pub config_path: Option<Seq<char>>,
}

impl<'a> View for ConfigInput<'a> {
    type V = ConfigInputView;

    open spec fn view(&self) -> ConfigInputView {
        ConfigInputView {
            sid: opt_str(self.sid),
            sid_token: opt_str(self.sid_token),
            participant_id: opt_str(self.participant_id),
            http_listen_addr: opt_str(self.http_listen_addr),
            udp_announce_addr: opt_str(self.udp_announce_addr),
            bootstrap_peers: opt_str(self.bootstrap_peers),
            sync_interval_secs: self.sync_interval_secs,
            public_key_path: opt_str(self.public_key_path),
            authorized_keys_path: opt_str(self.authorized_keys_path),
            tls_cert_path: opt_str(self.tls_cert_path),
            tls_key_path: opt_str(self.tls_key_path),
            tls_ca_path: opt_str(self.tls_ca_path),
            tls_server_name: opt_str(self.tls_server_name),
            insecure_no_tls: self.insecure_no_tls,
            dry_run: self.dry_run,
            config_path: opt_str(self.config_path),
        }
    }
}

/// Why a configuration was refused.
#[derive(Debug, Clone, PartialEq, Eq)]
pub enum ConfigError {
    MissingSid,
    MissingSidToken,
    InvalidSid,
    InvalidSidToken,
    InvalidSyncInterval,
    ConfigFileReadFailed(String),
}

pub enum ConfigErrorView {
    MissingSid,
    MissingSidToken,
    InvalidSid,
    InvalidSidToken,
    InvalidSyncInterval,
    ConfigFileReadFailed(Seq<char>),
}

impl View for ConfigError {
    type V = ConfigErrorView;

    open spec fn view(&self) -> ConfigErrorView {
        match self {
            ConfigError::MissingSid => ConfigErrorView::MissingSid,
            ConfigError::MissingSidToken => ConfigErrorView::MissingSidToken,
            ConfigError::InvalidSid => ConfigErrorView::InvalidSid,
            ConfigError::InvalidSidToken => ConfigErrorView::InvalidSidToken,
            ConfigError::InvalidSyncInterval => ConfigErrorView::InvalidSyncInterval,
            ConfigError::ConfigFileReadFailed(p) => ConfigErrorView::ConfigFileReadFailed(p@),
        }
    }
}

// ---------------------------------------------------------------------------
// Specification of resolution
// ---------------------------------------------------------------------------

/// A text value: the command-line value, else the environment's, else the file's.
pub open spec fn resolve_text(
    arg: Option<Seq<char>>,
    env: Map<Seq<char>, Seq<char>>,
    env_key: Seq<char>,
    file: Map<Seq<char>, Seq<char>>,
    file_key: Seq<char>,
) -> Option<Seq<char>> {
    match arg {
        Some(a) => Some(a),
        None => if env.contains_key(env_key) {
            Some(env[env_key])
        } else if file.contains_key(file_key) {
            Some(file[file_key])
        } else {
            None
        },
    }
}

/// The number under `key`, if present and a valid `u64`.
pub open spec fn lookup_number(m: Map<Seq<char>, Seq<char>>, key: Seq<char>) -> Option<u64> {
    if m.contains_key(key) {
        match parse_unsigned(m[key], u64::MAX as nat) {
            Some(n) => Some(n as u64),
            None => None,
        }
    } else {
        None
    }
}

/// A number: the command-line value, else the environment's if it parses, else the file's
/// if it parses.
pub open spec fn resolve_number(
    arg: Option<u64>,
    env: Map<Seq<char>, Seq<char>>,
    env_key: Seq<char>,
    file: Map<Seq<char>, Seq<char>>,
    file_key: Seq<char>,
) -> Option<u64> {
    match arg {
        Some(n) => Some(n),
        None => match lookup_number(env, env_key) {
            Some(n) => Some(n),
            None => lookup_number(file, file_key),
        },
    }
}

/// The boolean words: `1 true yes on` and `0 false no off`, ignoring ASCII case and
/// surrounding whitespace.
pub open spec fn bool_word(s: Seq<char>) -> Option<bool> {
    let w = ascii_lowercase(trim(s));
    if w == "1"@ || w == "true"@ || w == "yes"@ || w == "on"@ {
        Some(true)
    } else if w == "0"@ || w == "false"@ || w == "no"@ || w == "off"@ {
        Some(false)
    } else {
        None
    }
}

pub open spec fn lookup_flag(m: Map<Seq<char>, Seq<char>>, key: Seq<char>) -> Option<bool> {
    if m.contains_key(key) {
        bool_word(m[key])
    } else {
        None
    }
}

/// A flag: set on the command line, else the environment's word if it is one, else the
/// file's word if it is one, else false.
pub open spec fn resolve_flag(
    arg: bool,
    env: Map<Seq<char>, Seq<char>>,
    env_key: Seq<char>,
    file: Map<Seq<char>, Seq<char>>,
    file_key: Seq<char>,
) -> bool {
    if arg {
        true
    } else {
        match lookup_flag(env, env_key) {
            Some(b) => b,
            None => match lookup_flag(file, file_key) {
                Some(b) => b,
                None => false,
            },
        }
    }
}

/// The items of a comma-separated list: trimmed, empty ones dropped, each kept once at its
/// first occurrence.
pub open spec fn csv_items(pieces: Seq<Seq<char>>) -> Seq<Seq<char>>
    decreases pieces.len(),
{
    if pieces.len() == 0 {
        Seq::empty()
    } else {
        let prev = csv_items(pieces.drop_last());
        let t = trim(pieces.last());
        if t.len() == 0 || prev.contains(t) {
            prev
        } else {
            prev.push(t)
        }
    }
}

pub open spec fn csv_list(s: Seq<char>) -> Seq<Seq<char>> {
    csv_items(split(s, ','))
}

/// The entry that one line of a config file gives, if any: blank lines, `#` comments and
/// lines without `=` give none; otherwise the trimmed text before and after the first `=`.
pub open spec fn config_line(line: Seq<char>) -> Option<(Seq<char>, Seq<char>)> {
    let t = trim(line);
    if t.len() == 0 || t[0] == '#' {
        None
    } else {
        match split_once(t, '=') {
            Some((k, v)) => Some((trim(k), trim(v))),
            None => None,
        }
    }
}

pub open spec fn config_lines_map(lines: Seq<Seq<char>>) -> Map<Seq<char>, Seq<char>>
    decreases lines.len(),
{
    if lines.len() == 0 {
        Map::empty()
    } else {
        let m = config_lines_map(lines.drop_last());
        match config_line(lines.last()) {
            Some((k, v)) => m.insert(k, v),
            None => m,
        }
    }
}

/// The map that a config file's text denotes; a later line for a key wins.
pub open spec fn config_file_map(content: Seq<char>) -> Map<Seq<char>, Seq<char>> {
    config_lines_map(split(content, '\n'))
}

pub open spec fn spec_participant_id(
    input: ConfigInputView,
    env: Map<Seq<char>, Seq<char>>,
    file: Map<Seq<char>, Seq<char>>,
) -> Seq<char> {
    match resolve_text(input.participant_id, env, "SSH_KEY_SYNC_PARTICIPANT_ID"@, file, "PARTICIPANT_ID"@) {
        Some(p) => p,
        None => if env.contains_key("HOSTNAME"@) {
            env["HOSTNAME"@]
        } else {
            UNKNOWN_PARTICIPANT@
        },
    }
}

pub open spec fn text_or(o: Option<Seq<char>>, default: Seq<char>) -> Seq<char> {
    match o {
        Some(s) => s,
        None => default,
    }
}

/// The configuration that valid credentials and interval resolve to.
pub open spec fn spec_app_config(
    input: ConfigInputView,
    env: Map<Seq<char>, Seq<char>>,
    file: Map<Seq<char>, Seq<char>>,
    sid: Seq<char>,
    sid_token: Seq<char>,
    interval: u64,
) -> AppConfigView {
    AppConfigView {
        sid: sid,
        sid_token: sid_token,
        participant_id: spec_participant_id(input, env, file),
        http_listen_addr: text_or(
            resolve_text(input.http_listen_addr, env, "SSH_KEY_SYNC_HTTP_LISTEN_ADDR"@, file, "HTTP_LISTEN_ADDR"@),
            DEFAULT_HTTP_LISTEN_ADDR@,
        ),
        udp_announce_addr: text_or(
            resolve_text(input.udp_announce_addr, env, "SSH_KEY_SYNC_UDP_ANNOUNCE_ADDR"@, file, "UDP_ANNOUNCE_ADDR"@),
            DEFAULT_UDP_ANNOUNCE_ADDR@,
        ),
        bootstrap_peers: match resolve_text(input.bootstrap_peers, env, "SSH_KEY_SYNC_BOOTSTRAP_PEERS"@, file, "BOOTSTRAP_PEERS"@) {
            Some(s) => csv_list(s),
            None => Seq::empty(),
        },
        sync_interval_secs: interval,
        public_key_path: text_or(
            resolve_text(input.public_key_path, env, "SSH_KEY_SYNC_PUBLIC_KEY_PATH"@, file, "PUBLIC_KEY_PATH"@),
            DEFAULT_PUBLIC_KEY_PATH@,
        ),
        authorized_keys_path: text_or(
            resolve_text(input.authorized_keys_path, env, "SSH_KEY_SYNC_AUTHORIZED_KEYS_PATH"@, file, "AUTHORIZED_KEYS_PATH"@),
            DEFAULT_AUTHORIZED_KEYS_PATH@,
        ),
        tls_cert_path: resolve_text(input.tls_cert_path, env, "SSH_KEY_SYNC_TLS_CERT_PATH"@, file, "TLS_CERT_PATH"@),
        tls_key_path: resolve_text(input.tls_key_path, env, "SSH_KEY_SYNC_TLS_KEY_PATH"@, file, "TLS_KEY_PATH"@),
        tls_ca_path: resolve_text(input.tls_ca_path, env, "SSH_KEY_SYNC_TLS_CA_PATH"@, file, "TLS_CA_PATH"@),
        tls_server_name: resolve_text(input.tls_server_name, env, "SSH_KEY_SYNC_TLS_SERVER_NAME"@, file, "TLS_SERVER_NAME"@),
        insecure_no_tls: resolve_flag(input.insecure_no_tls, env, "SSH_KEY_SYNC_INSECURE_NO_TLS"@, file, "INSECURE_NO_TLS"@),
        dry_run: resolve_flag(input.dry_run, env, "SSH_KEY_SYNC_DRY_RUN"@, file, "DRY_RUN"@),
    }
}

pub open spec fn spec_sid(input: ConfigInputView, env: Map<Seq<char>, Seq<char>>, file: Map<Seq<char>, Seq<char>>) -> Option<Seq<char>> {
    resolve_text(input.sid, env, "SSH_KEY_SYNC_SID"@, file, "SID"@)
}

pub open spec fn spec_sid_token(input: ConfigInputView, env: Map<Seq<char>, Seq<char>>, file: Map<Seq<char>, Seq<char>>) -> Option<Seq<char>> {
    resolve_text(input.sid_token, env, "SSH_KEY_SYNC_SID_TOKEN"@, file, "SID_TOKEN"@)
}

pub open spec fn spec_interval(input: ConfigInputView, env: Map<Seq<char>, Seq<char>>, file: Map<Seq<char>, Seq<char>>) -> u64 {
    match resolve_number(input.sync_interval_secs, env, "SSH_KEY_SYNC_SYNC_INTERVAL_SECS"@, file, "SYNC_INTERVAL_SECS"@) {
        Some(n) => n,
        None => DEFAULT_SYNC_INTERVAL_SECS,
    }
}

/// The outcome of resolving a configuration from its three sources.
pub open spec fn spec_load_config(
    input: ConfigInputView,
    mode: ConfigMode,
    env: Map<Seq<char>, Seq<char>>,
    file: Map<Seq<char>, Seq<char>>,
) -> Result<Option<AppConfigView>, ConfigErrorView> {
    let sid = spec_sid(input, env, file);
    let sid_token = spec_sid_token(input, env, file);
    if mode == ConfigMode::AllowMissing && sid is None && sid_token is None {
        Ok(None)
    } else if sid is None {
        Err(ConfigErrorView::MissingSid)
    } else if trim(sid->0).len() == 0 {
        Err(ConfigErrorView::InvalidSid)
    } else if sid_token is None {
        Err(ConfigErrorView::MissingSidToken)
    } else if trim(sid_token->0).len() == 0 {
        Err(ConfigErrorView::InvalidSidToken)
    } else if spec_interval(input, env, file) == 0 {
        Err(ConfigErrorView::InvalidSyncInterval)
    } else {
        Ok(Some(spec_app_config(input, env, file, trim(sid->0), trim(sid_token->0), spec_interval(input, env, file))))
    }
}

pub open spec fn config_result_view(r: Result<Option<AppConfig>, ConfigError>) -> Result<Option<AppConfigView>, ConfigErrorView> {
    match r {
        Ok(Some(c)) => Ok(Some(c@)),
        Ok(None) => Ok(None),
        Err(e) => Err(e@),
    }
}

// ---------------------------------------------------------------------------
// Implementation
// ---------------------------------------------------------------------------

/// Parses the text of a `KEY=VALUE` config file.
pub fn parse_config_key_values(content: &str) -> (r: KeyValues)
    ensures
        r@ == config_file_map(content@),
{
    let chars = chars_of(content);
    let lines = split_vec(chars.as_slice(), '\n');
    let mut map = KeyValues::new();
    let mut i: usize = 0;
    while i < lines.len()
        invariant
            i <= lines@.len(),
            views(lines@) == split(content@, '\n'),
            map@ == config_lines_map(views(lines@).take(i as int)),
        decreases lines.len() - i,
    {
        let t = trim_vec(lines[i].as_slice());
        proof {
            assert(views(lines@).take(i + 1).drop_last() == views(lines@).take(i as int));
            assert(views(lines@).take(i + 1).last() == lines@[i as int]@);
        }
        if t.len() > 0 && t[0] != '#' {
            match split_once_vec(t.as_slice(), '=') {
                Some((k, v)) => {
                    let key = trim_vec(k.as_slice());
                    let value = trim_vec(v.as_slice());
                    map.insert(string_of(key.as_slice()), string_of(value.as_slice()));
                },
                None => {},
            }
        }
        i += 1;
    }
    assert(views(lines@).take(lines@.len() as int) == views(lines@));
    map
}

/// A text value by precedence: the argument, else `env_key` in the environment, else
/// `file_key` in the file.
pub fn resolve_string(
    arg: Option<&str>,
    env_key: &str,
    env_data: &KeyValues,
    file_data: &KeyValues,
    file_key: &str,
) -> (r: Option<String>)
    ensures
        opt_string(r) == resolve_text(opt_str(arg), env_data@, env_key@, file_data@, file_key@),
{
    match arg {
        Some(a) => Some(a.to_owned()),
        None => match env_data.get(env_key) {
            Some(v) => Some(v),
            None => file_data.get(file_key),
        },
    }
}

fn lookup_u64(m: &KeyValues, key: &str) -> (r: Option<u64>)
    ensures
        r == lookup_number(m@, key@),
{
    match m.get(key) {
        Some(v) => {
            let chars = chars_of(v.as_str());
            parse_unsigned_vec(chars.as_slice(), u64::MAX)
        },
        None => None,
    }
}

/// A number by precedence; a source whose text is not a valid `u64` is passed over.
pub fn resolve_u64(
    arg: Option<u64>,
    env_key: &str,
    env_data: &KeyValues,
    file_data: &KeyValues,
    file_key: &str,
) -> (r: Option<u64>)
    ensures
        r == resolve_number(arg, env_data@, env_key@, file_data@, file_key@),
{
    match arg {
        Some(n) => Some(n),
        None => match lookup_u64(env_data, env_key) {
            Some(n) => Some(n),
            None => lookup_u64(file_data, file_key),
        },
    }
}

/// Reads a boolean word.
pub fn parse_bool(value: String) -> (r: Option<bool>)
    ensures
        r == bool_word(value@),
{
    let chars = chars_of(value.as_str());
    let t = trim_vec(chars.as_slice());
    let w = lowercase_vec(t.as_slice());
    let w = w.as_slice();
    if chars_eq_str(w, "1") || chars_eq_str(w, "true") || chars_eq_str(w, "yes") || chars_eq_str(w, "on") {
        Some(true)
    } else if chars_eq_str(w, "0") || chars_eq_str(w, "false") || chars_eq_str(w, "no") || chars_eq_str(w, "off") {
        Some(false)
    } else {
        None
    }
}

fn lookup_bool(m: &KeyValues, key: &str) -> (r: Option<bool>)
    ensures
        r == lookup_flag(m@, key@),
{
    match m.get(key) {
        Some(v) => parse_bool(v),
        None => None,
    }
}

/// A flag: true when set on the command line; otherwise the first source that holds a
/// boolean word decides; otherwise false.
pub fn resolve_bool(
    arg: bool,
    env_key: &str,
    env_data: &KeyValues,
    file_data: &KeyValues,
    file_key: &str,
) -> (r: bool)
    ensures
        r == resolve_flag(arg, env_data@, env_key@, file_data@, file_key@),
{
    if arg {
        return true;
    }
    match lookup_bool(env_data, env_key) {
        Some(b) => b,
        None => match lookup_bool(file_data, file_key) {
            Some(b) => b,
            None => false,
        },
    }
}

pub proof fn lemma_csv_items_shape(pieces: Seq<Seq<char>>)
    ensures
        forall|i: int| 0 <= i < csv_items(pieces).len() ==> #[trigger] csv_items(pieces)[i].len() > 0
            && is_trimmed(csv_items(pieces)[i]),
        forall|i: int, j: int| 0 <= i < j < csv_items(pieces).len() ==> #[trigger] csv_items(pieces)[i]
            != #[trigger] csv_items(pieces)[j],
    decreases pieces.len(),
{
    if pieces.len() > 0 {
        lemma_csv_items_shape(pieces.drop_last());
        lemma_trim_is_trimmed(pieces.last());
        let prev = csv_items(pieces.drop_last());
        let t = trim(pieces.last());
        if !(t.len() == 0 || prev.contains(t)) {
            let r = prev.push(t);
            assert forall|i: int, j: int| 0 <= i < j < r.len() implies #[trigger] r[i] != #[trigger] r[j] by {
                if j == r.len() - 1 {
                    assert(r[i] == prev[i]);
                    assert(prev.contains(prev[i]));
                } else {
                    assert(r[i] == prev[i] && r[j] == prev[j]);
                }
            }
            assert forall|i: int| 0 <= i < r.len() implies #[trigger] r[i].len() > 0 && is_trimmed(r[i]) by {
                if i < r.len() - 1 {
                    assert(r[i] == prev[i]);
                }
            }
        }
    }
}

/// Splits a comma-separated list: items are trimmed, empty items dropped and repeated items
/// kept once, at their first position.
pub fn parse_csv(value: String) -> (r: Vec<String>)
    ensures
        texts(r@) == csv_list(value@),
        forall|i: int| 0 <= i < r@.len() ==> #[trigger] r@[i]@.len() > 0 && is_trimmed(r@[i]@),
        forall|i: int, j: int| 0 <= i < j < r@.len() ==> #[trigger] r@[i]@ != #[trigger] r@[j]@,
{
    let chars = chars_of(value.as_str());
    let pieces = split_vec(chars.as_slice(), ',');
    let mut out: Vec<String> = Vec::new();
    let mut seen: Vec<Vec<char>> = Vec::new();
    let mut i: usize = 0;
    while i < pieces.len()
        invariant
            i <= pieces@.len(),
            views(pieces@) == split(value@, ','),
            texts(out@) == csv_items(views(pieces@).take(i as int)),
            views(seen@) == texts(out@),
        decreases pieces.len() - i,
    {
        let t = trim_vec(pieces[i].as_slice());
        proof {
            assert(views(pieces@).take(i + 1).drop_last() == views(pieces@).take(i as int));
            assert(views(pieces@).take(i + 1).last() == pieces@[i as int]@);
        }
        if t.len() > 0 {
            let mut found = false;
            let mut j: usize = 0;
            while j < seen.len()
                invariant
                    j <= seen@.len(),
                    found == exists|k: int| 0 <= k < j && #[trigger] views(seen@)[k] == t@,
                decreases seen.len() - j,
            {
                assert(views(seen@)[j as int] == seen@[j as int]@);
                if same_chars(seen[j].as_slice(), t.as_slice()) {
                    found = true;
                }
                j += 1;
                assert(found == exists|k: int| 0 <= k < j && #[trigger] views(seen@)[k] == t@) by {
                    if found && !(exists|k: int| 0 <= k < j - 1 && #[trigger] views(seen@)[k] == t@) {
                        assert(views(seen@)[j - 1] == t@);
                    }
                }
            }
            let ghost prev = texts(out@);
            proof {
                if prev.contains(t@) {
                    let k = choose|k: int| 0 <= k < prev.len() && prev[k] == t@;
                    assert(views(seen@)[k] == t@);
                }
            }
            if !found {
                let s = string_of(t.as_slice());
                out.push(s);
                seen.push(t);
                assert(texts(out@) == prev.push(t@));
                assert(views(seen@) == texts(out@));
            }
        }
        i += 1;
    }
    assert(views(pieces@).take(pieces@.len() as int) == views(pieces@));
    proof {
        lemma_csv_items_shape(views(pieces@));
        assert forall|i: int| 0 <= i < out@.len() implies #[trigger] out@[i]@.len() > 0 && is_trimmed(out@[i]@) by {
            assert(texts(out@)[i] == out@[i]@);
        }
        assert forall|i: int, j: int| 0 <= i < j < out@.len() implies #[trigger] out@[i]@ != #[trigger] out@[j]@ by {
            assert(texts(out@)[i] == out@[i]@);
            assert(texts(out@)[j] == out@[j]@);
        }
    }
    out
}

/// The trimmed text, unless it is empty.
pub fn normalize_non_empty(value: String) -> (r: Option<String>)
    ensures
        opt_string(r) == (if trim(value@).len() == 0 { None } else { Some(trim(value@)) }),
{
    let t = trim_str(value.as_str());
    if t.as_str().is_empty() {
        None
    } else {
        Some(t)
    }
}


fn text_or_default(o: Option<String>, default: &str) -> (r: String)
    ensures
        r@ == text_or(opt_string(o), default@),
{
    match o {
        Some(s) => s,
        None => default.to_owned(),
    }
}

fn resolve_participant_id(
    input: &ConfigInput<'_>,
    env_data: &KeyValues,
    file_data: &KeyValues,
) -> (r: String)
    ensures
        r@ == spec_participant_id(input@, env_data@, file_data@),
{
    match resolve_string(input.participant_id, "SSH_KEY_SYNC_PARTICIPANT_ID", env_data, file_data, "PARTICIPANT_ID") {
        Some(p) => p,
        None => match env_data.get("HOSTNAME") {
            Some(h) => h,
            None => UNKNOWN_PARTICIPANT.to_owned(),
        },
    }
}

fn resolve_peers(input: &ConfigInput<'_>, env_data: &KeyValues, file_data: &KeyValues) -> (r: Vec<String>)
    ensures
        texts(r@) == (match resolve_text(input@.bootstrap_peers, env_data@, "SSH_KEY_SYNC_BOOTSTRAP_PEERS"@, file_data@, "BOOTSTRAP_PEERS"@) {
            Some(s) => csv_list(s),
            None => Seq::empty(),
        }),
{
    match resolve_string(input.bootstrap_peers, "SSH_KEY_SYNC_BOOTSTRAP_PEERS", env_data, file_data, "BOOTSTRAP_PEERS") {
        Some(s) => parse_csv(s),
        None => {
            let v: Vec<String> = Vec::new();
            assert(texts(v@) =~= Seq::<Seq<char>>::empty());
            v
        },
    }
}

/// Resolves the configuration from command-line values, the environment and the parsed
/// config file, with the precedence CLI > ENV > file.
pub fn load_config_with_sources(
    input: &ConfigInput<'_>,
    mode: ConfigMode,
    env_data: &KeyValues,
    file_data: &KeyValues,
) -> (r: Result<Option<AppConfig>, ConfigError>)
    ensures
        config_result_view(r) == spec_load_config(input@, mode, env_data@, file_data@),
{
    let sid = resolve_string(input.sid, "SSH_KEY_SYNC_SID", env_data, file_data, "SID");
    let sid_token = resolve_string(input.sid_token, "SSH_KEY_SYNC_SID_TOKEN", env_data, file_data, "SID_TOKEN");

    if mode == ConfigMode::AllowMissing && sid.is_none() && sid_token.is_none() {
        return Ok(None);
    }
    let sid = match sid {
        None => return Err(ConfigError::MissingSid),
        Some(s) => match normalize_non_empty(s) {
            None => return Err(ConfigError::InvalidSid),
            Some(s) => s,
        },
    };
    let sid_token = match sid_token {
        None => return Err(ConfigError::MissingSidToken),
        Some(s) => match normalize_non_empty(s) {
            None => return Err(ConfigError::InvalidSidToken),
            Some(s) => s,
        },
    };

    let sync_interval_secs = match resolve_u64(
        input.sync_interval_secs,
        "SSH_KEY_SYNC_SYNC_INTERVAL_SECS",
        env_data,
        file_data,
        "SYNC_INTERVAL_SECS",
    ) {
        Some(n) => n,
        None => DEFAULT_SYNC_INTERVAL_SECS,
    };
    if sync_interval_secs == 0 {
        return Err(ConfigError::InvalidSyncInterval);
    }

    let participant_id = resolve_participant_id(input, env_data, file_data);
    let http_listen_addr = text_or_default(
        resolve_string(input.http_listen_addr, "SSH_KEY_SYNC_HTTP_LISTEN_ADDR", env_data, file_data, "HTTP_LISTEN_ADDR"),
        DEFAULT_HTTP_LISTEN_ADDR,
    );
    let udp_announce_addr = text_or_default(
        resolve_string(input.udp_announce_addr, "SSH_KEY_SYNC_UDP_ANNOUNCE_ADDR", env_data, file_data, "UDP_ANNOUNCE_ADDR"),
        DEFAULT_UDP_ANNOUNCE_ADDR,
    );
    let bootstrap_peers = resolve_peers(input, env_data, file_data);
    let public_key_path = text_or_default(
        resolve_string(input.public_key_path, "SSH_KEY_SYNC_PUBLIC_KEY_PATH", env_data, file_data, "PUBLIC_KEY_PATH"),
        DEFAULT_PUBLIC_KEY_PATH,
    );
    let authorized_keys_path = text_or_default(
        resolve_string(input.authorized_keys_path, "SSH_KEY_SYNC_AUTHORIZED_KEYS_PATH", env_data, file_data, "AUTHORIZED_KEYS_PATH"),
        DEFAULT_AUTHORIZED_KEYS_PATH,
    );
    let dry_run = resolve_bool(input.dry_run, "SSH_KEY_SYNC_DRY_RUN", env_data, file_data, "DRY_RUN");
    let tls_cert_path = resolve_string(input.tls_cert_path, "SSH_KEY_SYNC_TLS_CERT_PATH", env_data, file_data, "TLS_CERT_PATH");
    let tls_key_path = resolve_string(input.tls_key_path, "SSH_KEY_SYNC_TLS_KEY_PATH", env_data, file_data, "TLS_KEY_PATH");
    let tls_ca_path = resolve_string(input.tls_ca_path, "SSH_KEY_SYNC_TLS_CA_PATH", env_data, file_data, "TLS_CA_PATH");
    let tls_server_name = resolve_string(input.tls_server_name, "SSH_KEY_SYNC_TLS_SERVER_NAME", env_data, file_data, "TLS_SERVER_NAME");
    let insecure_no_tls = resolve_bool(input.insecure_no_tls, "SSH_KEY_SYNC_INSECURE_NO_TLS", env_data, file_data, "INSECURE_NO_TLS");

    Ok(Some(AppConfig {
        sid,
        sid_token,
        participant_id,
        http_listen_addr,
        udp_announce_addr,
        bootstrap_peers,
        sync_interval_secs,
        public_key_path,
        authorized_keys_path,
        tls_cert_path,
        tls_key_path,
        tls_ca_path,
        tls_server_name,
        insecure_no_tls,
        dry_run,
    }))
}

/// The outcome of loading: as `spec_load_config` over the environment and the map that the
/// config file's text denotes, unless that file could not be read.
pub open spec fn spec_load_config_from(
    input: ConfigInputView,
    mode: ConfigMode,
    env: Map<Seq<char>, Seq<char>>,
    file_content: Result<Seq<char>, ()>,
) -> Result<Option<AppConfigView>, ConfigErrorView> {
    match file_content {
        Err(_) => Err(ConfigErrorView::ConfigFileReadFailed(text_or(input.config_path, Seq::empty()))),
        Ok(text) => spec_load_config(input, mode, env, config_file_map(text)),
    }
}

/// Loads the configuration. `file_content` is what reading `input.config_path` gave: its
/// text, an empty text when no path is given, or `Err` when the file could not be read.
pub fn load_config(
    input: &ConfigInput<'_>,
    mode: ConfigMode,
    env_data: &KeyValues,
    file_content: Result<String, ()>,
) -> (r: Result<Option<AppConfig>, ConfigError>)
    ensures
        config_result_view(r) == spec_load_config_from(
            input@,
            mode,
            env_data@,
            match file_content {
                Ok(t) => Ok(t@),
                Err(e) => Err(e),
            },
        ),
{
    let file_data = match file_content {
        Err(_) => {
            let path = match input.config_path {
                Some(p) => p.to_owned(),
                None => String::new(),
            };
            return Err(ConfigError::ConfigFileReadFailed(path));
        },
        Ok(text) => parse_config_key_values(text.as_str()),
    };
    load_config_with_sources(input, mode, env_data, &file_data)
}

/// The sync-related command-line options, as parsed.
pub struct SyncConfigArgs {
    pub sid: Option<String>,
    pub sid_token: Option<String>,
    pub participant_id: Option<String>,
    pub http_listen_addr: Option<String>,
    pub udp_announce_addr: Option<String>,
    pub bootstrap_peers: Option<String>,
    pub sync_interval_secs: Option<u64>,
    pub public_key_path: Option<String>,
    pub authorized_keys_path: Option<String>,
    pub tls_cert_path: Option<String>,
    pub tls_key_path: Option<String>,
    pub tls_ca_path: Option<String>,
    pub tls_server_name: Option<String>,
    pub insecure_no_tls: bool,
    pub dry_run: bool,
    pub config_path: Option<String>,
}

fn borrow_opt(o: &Option<String>) -> (r: Option<&str>)
    ensures
        opt_str(r) == opt_string(*o),
{
    match o {
        Some(s) => Some(s.as_str()),
        None => None,
    }
}

/// Borrows the parsed options as configuration input.
pub fn config_input_from_args(args: &SyncConfigArgs) -> (r: ConfigInput<'_>)
    ensures
        r@ == (ConfigInputView {
            sid: opt_string(args.sid),
            sid_token: opt_string(args.sid_token),
            participant_id: opt_string(args.participant_id),
            http_listen_addr: opt_string(args.http_listen_addr),
            udp_announce_addr: opt_string(args.udp_announce_addr),
            bootstrap_peers: opt_string(args.bootstrap_peers),
            sync_interval_secs: args.sync_interval_secs,
            public_key_path: opt_string(args.public_key_path),
            authorized_keys_path: opt_string(args.authorized_keys_path),
            tls_cert_path: opt_string(args.tls_cert_path),
            tls_key_path: opt_string(args.tls_key_path),
            tls_ca_path: opt_string(args.tls_ca_path),
            tls_server_name: opt_string(args.tls_server_name),
            insecure_no_tls: args.insecure_no_tls,
            dry_run: args.dry_run,
            config_path: opt_string(args.config_path),
        }),
{
    ConfigInput {
        sid: borrow_opt(&args.sid),
        sid_token: borrow_opt(&args.sid_token),
        participant_id: borrow_opt(&args.participant_id),
        http_listen_addr: borrow_opt(&args.http_listen_addr),
        udp_announce_addr: borrow_opt(&args.udp_announce_addr),
        bootstrap_peers: borrow_opt(&args.bootstrap_peers),
        sync_interval_secs: args.sync_interval_secs,
        public_key_path: borrow_opt(&args.public_key_path),
        authorized_keys_path: borrow_opt(&args.authorized_keys_path),
        tls_cert_path: borrow_opt(&args.tls_cert_path),
        tls_key_path: borrow_opt(&args.tls_key_path),
        tls_ca_path: borrow_opt(&args.tls_ca_path),
        tls_server_name: borrow_opt(&args.tls_server_name),
        insecure_no_tls: args.insecure_no_tls,
        dry_run: args.dry_run,
        config_path: borrow_opt(&args.config_path),
    }
}

/// The message that each configuration error is reported with.
pub open spec fn config_error_message(e: ConfigErrorView) -> Seq<char> {
    match e {
        ConfigErrorView::MissingSid => "Missing SID: set --sid or SSH_KEY_SYNC_SID"@,
        ConfigErrorView::MissingSidToken => "Missing SID_TOKEN: set --sid-token or SSH_KEY_SYNC_SID_TOKEN"@,
        ConfigErrorView::InvalidSid => "SID must not be empty"@,
        ConfigErrorView::InvalidSidToken => "SID_TOKEN must not be empty"@,
        ConfigErrorView::InvalidSyncInterval => "sync-interval-secs must be greater than 0"@,
        ConfigErrorView::ConfigFileReadFailed(path) => "Cannot read config file: "@ + path,
    }
}

impl ConfigError {
    /// The error's message, as the program prints it.
    pub fn to_message(&self) -> (r: String)
        ensures
            r@ == config_error_message(self@),
    {
        match self {
            ConfigError::MissingSid => "Missing SID: set --sid or SSH_KEY_SYNC_SID".to_owned(),
            ConfigError::MissingSidToken => "Missing SID_TOKEN: set --sid-token or SSH_KEY_SYNC_SID_TOKEN".to_owned(),
            ConfigError::InvalidSid => "SID must not be empty".to_owned(),
            ConfigError::InvalidSidToken => "SID_TOKEN must not be empty".to_owned(),
            ConfigError::InvalidSyncInterval => "sync-interval-secs must be greater than 0".to_owned(),
            ConfigError::ConfigFileReadFailed(path) => {
                let mut r = "Cannot read config file: ".to_owned();
                r.append(path.as_str());
                r
            },
        }
    }
}


// ---------------------------------------------------------------------------
// Laws
// ---------------------------------------------------------------------------

/// Source precedence is CLI > ENV > config file: a command-line value wins; without one the
/// environment's value wins; the file's value counts only when neither is present.
pub proof fn law_source_precedence(
    arg: Option<Seq<char>>,
    env: Map<Seq<char>, Seq<char>>,
    env_key: Seq<char>,
    file: Map<Seq<char>, Seq<char>>,
    file_key: Seq<char>,
)
    ensures
        arg is Some ==> resolve_text(arg, env, env_key, file, file_key) == arg,
        arg is None && env.contains_key(env_key) ==> resolve_text(arg, env, env_key, file, file_key) == Some(env[env_key]),
        arg is None && !env.contains_key(env_key) ==> resolve_text(arg, env, env_key, file, file_key) == (if file.contains_key(file_key) {
            Some(file[file_key])
        } else {
            None
        }),
{
}

/// Source precedence CLI > ENV > config file holds for numbers too: a command-line number
/// wins; without one, an environment value that reads as a `u64` wins whatever the file
/// holds; the file's value counts only when the environment has no readable number.
pub proof fn law_number_precedence(
    arg: Option<u64>,
    env: Map<Seq<char>, Seq<char>>,
    env_key: Seq<char>,
    file: Map<Seq<char>, Seq<char>>,
    file_key: Seq<char>,
)
    ensures
        arg matches Some(n) ==> resolve_number(arg, env, env_key, file, file_key) == Some(n),
        arg is None && env.contains_key(env_key) && parse_unsigned(env[env_key], u64::MAX as nat) is Some
            ==> resolve_number(arg, env, env_key, file, file_key) == Some(
            parse_unsigned(env[env_key], u64::MAX as nat)->0 as u64,
        ),
        arg is None && (!env.contains_key(env_key) || parse_unsigned(env[env_key], u64::MAX as nat) is None)
            && file.contains_key(file_key) && parse_unsigned(file[file_key], u64::MAX as nat) is Some
            ==> resolve_number(arg, env, env_key, file, file_key) == Some(
            parse_unsigned(file[file_key], u64::MAX as nat)->0 as u64,
        ),
        arg is None && (!env.contains_key(env_key) || parse_unsigned(env[env_key], u64::MAX as nat) is None)
            && (!file.contains_key(file_key) || parse_unsigned(file[file_key], u64::MAX as nat) is None)
            ==> resolve_number(arg, env, env_key, file, file_key) is None,
{
}

/// Flags follow the same precedence: set on the command line, else the environment's word
/// if it is a boolean word, else the file's word if it is one, else off.
pub proof fn law_flag_precedence(
    arg: bool,
    env: Map<Seq<char>, Seq<char>>,
    env_key: Seq<char>,
    file: Map<Seq<char>, Seq<char>>,
    file_key: Seq<char>,
)
    ensures
        arg ==> resolve_flag(arg, env, env_key, file, file_key),
        !arg && env.contains_key(env_key) && bool_word(env[env_key]) is Some
            ==> resolve_flag(arg, env, env_key, file, file_key) == bool_word(env[env_key])->0,
        !arg && (!env.contains_key(env_key) || bool_word(env[env_key]) is None) && file.contains_key(file_key)
            && bool_word(file[file_key]) is Some ==> resolve_flag(arg, env, env_key, file, file_key) == bool_word(
            file[file_key],
        )->0,
        !arg && (!env.contains_key(env_key) || bool_word(env[env_key]) is None) && (!file.contains_key(file_key)
            || bool_word(file[file_key]) is None) ==> !resolve_flag(arg, env, env_key, file, file_key),
{
}

/// The participant ID: the command-line value, else `SSH_KEY_SYNC_PARTICIPANT_ID`, else the
/// file's `PARTICIPANT_ID`, else `HOSTNAME`, else `unknown-participant`.
pub proof fn law_participant_id_sources(
    input: ConfigInputView,
    env: Map<Seq<char>, Seq<char>>,
    file: Map<Seq<char>, Seq<char>>,
)
    ensures
        input.participant_id is Some ==> spec_participant_id(input, env, file) == input.participant_id->0,
        input.participant_id is None && env.contains_key("SSH_KEY_SYNC_PARTICIPANT_ID"@)
            ==> spec_participant_id(input, env, file) == env["SSH_KEY_SYNC_PARTICIPANT_ID"@],
        input.participant_id is None && !env.contains_key("SSH_KEY_SYNC_PARTICIPANT_ID"@) && file.contains_key(
            "PARTICIPANT_ID"@,
        ) ==> spec_participant_id(input, env, file) == file["PARTICIPANT_ID"@],
        input.participant_id is None && !env.contains_key("SSH_KEY_SYNC_PARTICIPANT_ID"@) && !file.contains_key(
            "PARTICIPANT_ID"@,
        ) && env.contains_key("HOSTNAME"@) ==> spec_participant_id(input, env, file) == env["HOSTNAME"@],
        input.participant_id is None && !env.contains_key("SSH_KEY_SYNC_PARTICIPANT_ID"@) && !file.contains_key(
            "PARTICIPANT_ID"@,
        ) && !env.contains_key("HOSTNAME"@) ==> spec_participant_id(input, env, file) == "unknown-participant"@,
{
}

/// A config line `KEY=VALUE` whose key is not blank, starts no comment and holds no `=`,
/// and whose key and value have no surrounding whitespace, gives that key and the whole
/// value after the first `=`; the value may hold further `=`.
pub proof fn law_config_line_entry(key: Seq<char>, value: Seq<char>)
    requires
        key.len() > 0,
        is_trimmed(key),
        key[0] != '#',
        !key.contains('='),
        is_trimmed(value),
    ensures
        config_line(key + "="@ + value) == Some((key, value)),
{
    reveal_strlit("=");
    let line = key.push('=') + value;
    assert(key + "="@ + value =~= line);
    lemma_trim_of_trimmed(key);
    lemma_trim_of_trimmed(value);
    assert(line[0] == key[0]);
    if value.len() > 0 {
        assert(line.last() == value.last());
    } else {
        assert(line.last() == '=');
    }
    lemma_trim_of_trimmed(line);
    lemma_split_once_concat(key, '=', value);
}

/// The last line of a config file for a key wins: after any text and a line break, a line
/// `KEY=VALUE` (as in `law_config_line_entry`, on one line) sets the key to the value.
pub proof fn law_config_last_line_wins(content: Seq<char>, key: Seq<char>, value: Seq<char>)
    requires
        key.len() > 0,
        is_trimmed(key),
        key[0] != '#',
        !key.contains('='),
        is_trimmed(value),
        !key.contains('\n'),
        !value.contains('\n'),
    ensures
        config_file_map(content + "\n"@ + key + "="@ + value).contains_key(key),
        config_file_map(content + "\n"@ + key + "="@ + value)[key] == value,
{
    reveal_strlit("\n");
    reveal_strlit("=");
    law_config_line_entry(key, value);
    let line = key + "="@ + value;
    assert(!line.contains('\n')) by {
        if line.contains('\n') {
            let i = choose|i: int| 0 <= i < line.len() && line[i] == '\n';
            if i < key.len() {
                assert(key[i] == '\n');
            } else if i > key.len() {
                assert(value[i - key.len() - 1] == '\n');
            }
        }
    }
    let text = content + "\n"@ + key + "="@ + value;
    assert(text =~= content.push('\n') + line);
    lemma_split_push_sep(content, '\n');
    lemma_split_append_plain(content.push('\n'), line, '\n');
    let pieces = split(content, '\n');
    assert(Seq::<char>::empty() + line == line);
    assert(pieces.push(Seq::<char>::empty()).update(pieces.len() as int, line) =~= pieces.push(line));
    assert(pieces.push(line).drop_last() == pieces);
}

/// Without a command-line interval, an `SSH_KEY_SYNC_SYNC_INTERVAL_SECS` that reads as a
/// `u64` is the sync interval, whatever the config file's `SYNC_INTERVAL_SECS` says.
pub proof fn law_interval_from_environment(
    input: ConfigInputView,
    mode: ConfigMode,
    env: Map<Seq<char>, Seq<char>>,
    file: Map<Seq<char>, Seq<char>>,
)
    requires
        input.sync_interval_secs is None,
        env.contains_key("SSH_KEY_SYNC_SYNC_INTERVAL_SECS"@),
        parse_unsigned(env["SSH_KEY_SYNC_SYNC_INTERVAL_SECS"@], u64::MAX as nat) is Some,
    ensures
        spec_interval(input, env, file) == parse_unsigned(env["SSH_KEY_SYNC_SYNC_INTERVAL_SECS"@], u64::MAX as nat)->0 as u64,
        spec_load_config(input, mode, env, file) matches Ok(Some(c))
            ==> c.sync_interval_secs == parse_unsigned(env["SSH_KEY_SYNC_SYNC_INTERVAL_SECS"@], u64::MAX as nat)->0 as u64,
{
}

/// Every configuration that loads has a non-empty, trimmed SID and SID_TOKEN, a positive
/// sync interval, and bootstrap peers that are non-empty, trimmed and free of duplicates.
pub proof fn law_loaded_config_valid(
    input: ConfigInputView,
    mode: ConfigMode,
    env: Map<Seq<char>, Seq<char>>,
    file: Map<Seq<char>, Seq<char>>,
)
    ensures
        spec_load_config(input, mode, env, file) matches Ok(Some(c)) ==> {
            &&& c.sid.len() > 0 && is_trimmed(c.sid)
            &&& c.sid_token.len() > 0 && is_trimmed(c.sid_token)
            &&& c.sync_interval_secs > 0
            &&& forall|i: int| 0 <= i < c.bootstrap_peers.len() ==> #[trigger] c.bootstrap_peers[i].len() > 0 && is_trimmed(c.bootstrap_peers[i])
            &&& forall|i: int, j: int| 0 <= i < j < c.bootstrap_peers.len() ==> #[trigger] c.bootstrap_peers[i] != #[trigger] c.bootstrap_peers[j]
        },
{
    if let Ok(Some(c)) = spec_load_config(input, mode, env, file) {
        lemma_trim_is_trimmed(spec_sid(input, env, file)->0);
        lemma_trim_is_trimmed(spec_sid_token(input, env, file)->0);
        match resolve_text(input.bootstrap_peers, env, "SSH_KEY_SYNC_BOOTSTRAP_PEERS"@, file, "BOOTSTRAP_PEERS"@) {
            Some(t) => lemma_csv_items_shape(split(t, ',')),
            None => {},
        }
    }
}

/// Loading succeeds exactly when a SID and a SID_TOKEN are found, neither blank, and the
/// sync interval is not 0; the configuration then holds both trimmed and that interval. A
/// blank SID is refused before the SID_TOKEN is looked at, and a zero interval only after
/// both credentials passed.
pub proof fn law_load_outcome(
    input: ConfigInputView,
    mode: ConfigMode,
    env: Map<Seq<char>, Seq<char>>,
    file: Map<Seq<char>, Seq<char>>,
)
    ensures
        spec_sid(input, env, file) is Some && trim(spec_sid(input, env, file)->0).len() == 0
            ==> spec_load_config(input, mode, env, file) == Err::<Option<AppConfigView>, ConfigErrorView>(
            ConfigErrorView::InvalidSid,
        ),
        spec_sid(input, env, file) is Some && trim(spec_sid(input, env, file)->0).len() > 0 && spec_sid_token(
            input,
            env,
            file,
        ) is Some && trim(spec_sid_token(input, env, file)->0).len() == 0 ==> spec_load_config(input, mode, env, file)
            == Err::<Option<AppConfigView>, ConfigErrorView>(ConfigErrorView::InvalidSidToken),
        spec_sid(input, env, file) is Some && trim(spec_sid(input, env, file)->0).len() > 0 && spec_sid_token(
            input,
            env,
            file,
        ) is Some && trim(spec_sid_token(input, env, file)->0).len() > 0 && spec_interval(input, env, file) == 0
            ==> spec_load_config(input, mode, env, file) == Err::<Option<AppConfigView>, ConfigErrorView>(
            ConfigErrorView::InvalidSyncInterval,
        ),
        (spec_load_config(input, mode, env, file) matches Ok(Some(c))) <==> (spec_sid(input, env, file) is Some
            && trim(spec_sid(input, env, file)->0).len() > 0 && spec_sid_token(input, env, file) is Some && trim(
            spec_sid_token(input, env, file)->0,
        ).len() > 0 && spec_interval(input, env, file) > 0),
        spec_load_config(input, mode, env, file) matches Ok(Some(c)) ==> c.sid == trim(spec_sid(input, env, file)->0)
            && c.sid_token == trim(spec_sid_token(input, env, file)->0) && c.sync_interval_secs == spec_interval(
            input,
            env,
            file,
        ),
{
}

/// Only the lenient mode accepts the absence of both credentials, and then yields no
/// configuration; a partial pair is refused in both modes.
pub proof fn law_missing_credentials(
    input: ConfigInputView,
    mode: ConfigMode,
    env: Map<Seq<char>, Seq<char>>,
    file: Map<Seq<char>, Seq<char>>,
)
    ensures
        mode == ConfigMode::AllowMissing && spec_sid(input, env, file) is None && spec_sid_token(input, env, file) is None
            ==> spec_load_config(input, mode, env, file) == Ok::<Option<AppConfigView>, ConfigErrorView>(None),
        mode == ConfigMode::RequireSyncConfig ==> !(spec_load_config(input, mode, env, file) matches Ok(None)),
        spec_sid(input, env, file) is Some && spec_sid_token(input, env, file) is None
            ==> spec_load_config(input, mode, env, file) is Err,
        spec_sid(input, env, file) is None && spec_sid_token(input, env, file) is Some
            ==> spec_load_config(input, mode, env, file) == Err::<Option<AppConfigView>, ConfigErrorView>(ConfigErrorView::MissingSid),
{
}


proof fn lemma_csv_items_free(pieces: Seq<Seq<char>>, c: char)
    requires
        forall|i: int| 0 <= i < pieces.len() ==> !(#[trigger] pieces[i]).contains(c),
    ensures
        forall|i: int| 0 <= i < csv_items(pieces).len() ==> !(#[trigger] csv_items(pieces)[i]).contains(c),
    decreases pieces.len(),
{
    if pieces.len() > 0 {
        let q = pieces.drop_last();
        assert forall|i: int| 0 <= i < q.len() implies !(#[trigger] q[i]).contains(c) by {
            assert(q[i] == pieces[i]);
        }
        lemma_csv_items_free(q, c);
        assert(!pieces[pieces.len() - 1].contains(c));
        lemma_trim_free(pieces.last(), c);
        let prev = csv_items(q);
        let r = csv_items(pieces);
        assert forall|i: int| 0 <= i < r.len() implies !(#[trigger] r[i]).contains(c) by {
            if i < prev.len() {
                assert(r[i] == prev[i]);
            }
        }
    }
}

proof fn lemma_csv_items_of_clean(items: Seq<Seq<char>>)
    requires
        forall|i: int| 0 <= i < items.len() ==> #[trigger] items[i].len() > 0 && is_trimmed(items[i]),
        forall|i: int, j: int| 0 <= i < j < items.len() ==> #[trigger] items[i] != #[trigger] items[j],
    ensures
        csv_items(items) == items,
    decreases items.len(),
{
    if items.len() > 0 {
        let p = items.drop_last();
        assert forall|i: int| 0 <= i < p.len() implies #[trigger] p[i].len() > 0 && is_trimmed(p[i]) by {
            assert(p[i] == items[i]);
        }
        assert forall|i: int, j: int| 0 <= i < j < p.len() implies #[trigger] p[i] != #[trigger] p[j] by {
            assert(p[i] == items[i] && p[j] == items[j]);
        }
        lemma_csv_items_of_clean(p);
        let last = items[items.len() - 1];
        assert(last.len() > 0 && is_trimmed(last));
        lemma_trim_of_trimmed(last);
        if p.contains(last) {
            let k = choose|k: int| 0 <= k < p.len() && p[k] == last;
            assert(items[k] != items[items.len() - 1]);
        }
        assert(p.push(last) =~= items);
    }
}

/// A parsed list is stable: joining its items with commas and parsing again gives the
/// same list.
pub proof fn law_csv_rejoin(value: Seq<char>)
    ensures
        csv_list(join(csv_list(value), ',')) == csv_list(value),
{
    let items = csv_list(value);
    lemma_csv_items_shape(split(value, ','));
    lemma_split_pieces_free(value, ',');
    lemma_csv_items_free(split(value, ','), ',');
    lemma_csv_items_of_clean(items);
    if items.len() == 0 {
        assert(join(items, ',') == Seq::<char>::empty());
        assert(split(Seq::<char>::empty(), ',') == seq![Seq::<char>::empty()]);
        let pieces = seq![Seq::<char>::empty()];
        assert(pieces.drop_last() =~= Seq::<Seq<char>>::empty());
        assert(trim(Seq::<char>::empty()) == Seq::<char>::empty());
        assert(csv_items(pieces) =~= Seq::<Seq<char>>::empty());
    } else {
        lemma_split_join(items, ',');
    }
}

} // verus!
