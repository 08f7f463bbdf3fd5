use ssh_key_sync::config::{
    config_input_from_args, load_config, load_config_with_sources, parse_bool, parse_config_key_values,
    parse_csv, resolve_bool, resolve_string, resolve_u64, normalize_non_empty, ConfigError,
    ConfigInput, ConfigMode, SyncConfigArgs,
};
use ssh_key_sync::key_values::KeyValues;

fn base_input<'a>() -> ConfigInput<'a> {
    ConfigInput {
        sid: Some("group-a"),
        sid_token: Some("secret-token"),
        participant_id: None,
        http_listen_addr: None,
        udp_announce_addr: None,
        bootstrap_peers: None,
        sync_interval_secs: None,
        public_key_path: None,
        authorized_keys_path: None,
        tls_cert_path: None,
        tls_key_path: None,
        tls_ca_path: None,
        tls_server_name: None,
        insecure_no_tls: false,
        dry_run: false,
        config_path: None,
    }
}

fn env_of(pairs: &[(&str, &str)]) -> KeyValues {
    let mut env = KeyValues::new();
    for (k, v) in pairs {
        env.insert(k.to_string(), v.to_string());
    }
    env
}

fn no_file() -> Result<String, ()> {
    Ok(String::new())
}

#[test]
fn requires_sid_when_mode_is_strict() {
    let mut input = base_input();
    input.sid = None;
    let config = load_config(&input, ConfigMode::RequireSyncConfig, &KeyValues::new(), no_file());
    assert!(config == Err(ConfigError::MissingSid));
}

#[test]
fn requires_sid_token_when_mode_is_strict() {
    let mut input = base_input();
    input.sid_token = None;
    let config = load_config(&input, ConfigMode::RequireSyncConfig, &KeyValues::new(), no_file());
    assert!(config == Err(ConfigError::MissingSidToken));
}

#[test]
fn rejects_empty_sid() {
    let mut input = base_input();
    input.sid = Some("   ");
    let config = load_config(&input, ConfigMode::RequireSyncConfig, &KeyValues::new(), no_file());
    assert!(config == Err(ConfigError::InvalidSid));
}

#[test]
fn rejects_empty_sid_token() {
    let mut input = base_input();
    input.sid_token = Some("  ");
    let config = load_config(&input, ConfigMode::RequireSyncConfig, &KeyValues::new(), no_file());
    assert!(config == Err(ConfigError::InvalidSidToken));
}

#[test]
fn accepts_values_from_args() {
    let config = load_config(&base_input(), ConfigMode::RequireSyncConfig, &KeyValues::new(), no_file())
        .expect("config should parse")
        .expect("config should exist");

    assert_eq!(config.sid, "group-a");
    assert_eq!(config.sid_token, "secret-token");
    assert_eq!(config.sync_interval_secs, 30);
}

#[test]
fn allows_missing_config_in_optional_mode() {
    let mut input = base_input();
    input.sid = None;
    input.sid_token = None;
    let config = load_config(&input, ConfigMode::AllowMissing, &KeyValues::new(), no_file())
        .expect("optional mode should work");
    assert!(config.is_none());
}

#[test]
fn does_not_allow_partial_config_in_optional_mode() {
    let mut input = base_input();
    input.sid_token = None;
    let config = load_config(&input, ConfigMode::AllowMissing, &KeyValues::new(), no_file());
    assert!(config == Err(ConfigError::MissingSidToken));
}

#[test]
fn rejects_zero_sync_interval() {
    let mut input = base_input();
    input.sync_interval_secs = Some(0);
    let config = load_config(&input, ConfigMode::RequireSyncConfig, &KeyValues::new(), no_file());
    assert!(config == Err(ConfigError::InvalidSyncInterval));
}

#[test]
fn masks_sid_token_in_debug_output() {
    let config = load_config(&base_input(), ConfigMode::RequireSyncConfig, &KeyValues::new(), no_file())
        .expect("config should parse")
        .expect("config should exist");
    let debug = config.debug_string();

    assert!(debug.contains("sid_token: \"***\""));
    assert!(!debug.contains("secret-token"));
}

#[test]
fn reads_values_from_config_file() {
    let content = "SID=file-group\n\
                   SID_TOKEN=file-token\n\
                   PARTICIPANT_ID=file-node\n\
                   HTTP_LISTEN_ADDR=127.0.0.1:1234\n\
                   UDP_ANNOUNCE_ADDR=127.0.0.1:1235\n\
                   BOOTSTRAP_PEERS=node-a:1,node-b:2\n\
                   SYNC_INTERVAL_SECS=45\n\
                   PUBLIC_KEY_PATH=/tmp/key.pub\n\
                   AUTHORIZED_KEYS_PATH=/tmp/authorized_keys\n\
                   TLS_CERT_PATH=/tmp/tls.crt\n\
                   TLS_KEY_PATH=/tmp/tls.key\n\
                   TLS_CA_PATH=/tmp/ca.crt\n\
                   TLS_SERVER_NAME=node-a.local\n\
                   INSECURE_NO_TLS=false\n\
                   DRY_RUN=true\n";

    let mut input = base_input();
    input.sid = None;
    input.sid_token = None;
    input.config_path = Some("/tmp/ssh-key-sync-config.env");
    let config = load_config(&input, ConfigMode::RequireSyncConfig, &KeyValues::new(), Ok(content.to_owned()))
        .expect("config should parse")
        .expect("config should exist");

    assert_eq!(config.sid, "file-group");
    assert_eq!(config.sid_token, "file-token");
    assert_eq!(config.participant_id, "file-node");
    assert_eq!(config.http_listen_addr, "127.0.0.1:1234");
    assert_eq!(config.udp_announce_addr, "127.0.0.1:1235");
    assert_eq!(config.bootstrap_peers, vec!["node-a:1".to_owned(), "node-b:2".to_owned()]);
    assert_eq!(config.sync_interval_secs, 45);
    assert_eq!(config.public_key_path, "/tmp/key.pub");
    assert_eq!(config.authorized_keys_path, "/tmp/authorized_keys");
    assert_eq!(config.tls_cert_path, Some("/tmp/tls.crt".to_owned()));
    assert_eq!(config.tls_key_path, Some("/tmp/tls.key".to_owned()));
    assert_eq!(config.tls_ca_path, Some("/tmp/ca.crt".to_owned()));
    assert_eq!(config.tls_server_name, Some("node-a.local".to_owned()));
    assert!(!config.insecure_no_tls);
    assert!(config.dry_run);
}

#[test]
fn cli_values_override_config_file() {
    let content = "SID=file-group\n\
                   SID_TOKEN=file-token\n\
                   SYNC_INTERVAL_SECS=90\n";

    let mut input = base_input();
    input.config_path = Some("/tmp/ssh-key-sync-config.env");
    input.sync_interval_secs = Some(10);

    let config = load_config(&input, ConfigMode::RequireSyncConfig, &KeyValues::new(), Ok(content.to_owned()))
        .expect("config should parse")
        .expect("config should exist");

    assert_eq!(config.sid, "group-a");
    assert_eq!(config.sid_token, "secret-token");
    assert_eq!(config.sync_interval_secs, 10);
}

#[test]
fn normalizes_and_deduplicates_bootstrap_peers() {
    let mut input = base_input();
    input.bootstrap_peers = Some(" node-a:1, node-b:2, node-a:1 , node-c:3 ");

    let config = load_config(&input, ConfigMode::RequireSyncConfig, &KeyValues::new(), no_file())
        .expect("config should parse")
        .expect("config should exist");

    assert_eq!(
        config.bootstrap_peers,
        vec!["node-a:1".to_owned(), "node-b:2".to_owned(), "node-c:3".to_owned()]
    );
}

#[test]
fn reads_values_from_env_sources() {
    let mut input = base_input();
    input.sid = None;
    input.sid_token = None;

    let env_data = env_of(&[
        ("SSH_KEY_SYNC_SID", "env-group"),
        ("SSH_KEY_SYNC_SID_TOKEN", "env-token"),
        ("SSH_KEY_SYNC_PARTICIPANT_ID", "env-node"),
        ("SSH_KEY_SYNC_BOOTSTRAP_PEERS", "peer-a:1,peer-b:2"),
        ("SSH_KEY_SYNC_SYNC_INTERVAL_SECS", "75"),
        ("SSH_KEY_SYNC_TLS_CERT_PATH", "/env/tls.crt"),
        ("SSH_KEY_SYNC_TLS_KEY_PATH", "/env/tls.key"),
        ("SSH_KEY_SYNC_TLS_CA_PATH", "/env/ca.crt"),
        ("SSH_KEY_SYNC_TLS_SERVER_NAME", "peer.env.local"),
        ("SSH_KEY_SYNC_INSECURE_NO_TLS", "false"),
        ("SSH_KEY_SYNC_DRY_RUN", "true"),
    ]);

    let config = load_config_with_sources(&input, ConfigMode::RequireSyncConfig, &env_data, &KeyValues::new())
        .expect("config should parse")
        .expect("config should exist");

    assert_eq!(config.sid, "env-group");
    assert_eq!(config.sid_token, "env-token");
    assert_eq!(config.participant_id, "env-node");
    assert_eq!(config.bootstrap_peers, vec!["peer-a:1".to_owned(), "peer-b:2".to_owned()]);
    assert_eq!(config.sync_interval_secs, 75);
    assert_eq!(config.tls_cert_path, Some("/env/tls.crt".to_owned()));
    assert_eq!(config.tls_key_path, Some("/env/tls.key".to_owned()));
    assert_eq!(config.tls_ca_path, Some("/env/ca.crt".to_owned()));
    assert_eq!(config.tls_server_name, Some("peer.env.local".to_owned()));
    assert!(!config.insecure_no_tls);
    assert!(config.dry_run);
}

#[test]
fn cli_values_override_env_sources() {
    let input = base_input();
    let env_data = env_of(&[
        ("SSH_KEY_SYNC_SID", "env-group"),
        ("SSH_KEY_SYNC_SID_TOKEN", "env-token"),
        ("SSH_KEY_SYNC_SYNC_INTERVAL_SECS", "75"),
    ]);

    let config = load_config_with_sources(&input, ConfigMode::RequireSyncConfig, &env_data, &KeyValues::new())
        .expect("config should parse")
        .expect("config should exist");

    assert_eq!(config.sid, "group-a");
    assert_eq!(config.sid_token, "secret-token");
    assert_eq!(config.sync_interval_secs, 75);
}

// ---------------------------------------------------------------------------

#[test]
fn unreadable_config_file_is_reported_with_its_path() {
    let mut input = base_input();
    input.config_path = Some("/missing/config.env");
    let config = load_config(&input, ConfigMode::RequireSyncConfig, &KeyValues::new(), Err(()));
    assert!(config == Err(ConfigError::ConfigFileReadFailed("/missing/config.env".to_owned())));
}

#[test]
fn env_wins_over_file_and_defaults_fill_the_rest() {
    let mut input = base_input();
    input.sid = None;
    let env_data = env_of(&[("SSH_KEY_SYNC_SID", "env-group"), ("HOSTNAME", "host-1")]);
    let config = load_config(
        &input,
        ConfigMode::RequireSyncConfig,
        &env_data,
        Ok("SID=file-group\nHTTP_LISTEN_ADDR = 10.0.0.1:80 \n".to_owned()),
    )
    .unwrap()
    .unwrap();
    assert_eq!(config.sid, "env-group");
    assert_eq!(config.participant_id, "host-1");
    assert_eq!(config.http_listen_addr, "10.0.0.1:80");
    assert_eq!(config.udp_announce_addr, "0.0.0.0:9923");
    assert_eq!(config.public_key_path, "~/.ssh/id_ed25519.pub");
    assert_eq!(config.authorized_keys_path, "~/.ssh/authorized_keys");
    assert!(config.bootstrap_peers.is_empty());
    assert_eq!(config.tls_cert_path, None);
}

#[test]
fn participant_falls_back_to_unknown() {
    let config = load_config(&base_input(), ConfigMode::RequireSyncConfig, &KeyValues::new(), no_file())
        .unwrap()
        .unwrap();
    assert_eq!(config.participant_id, "unknown-participant");
    assert_eq!(config.http_listen_addr, "0.0.0.0:9922");
}

#[test]
fn sid_and_token_are_trimmed() {
    let mut input = base_input();
    input.sid = Some("  group-b ");
    input.sid_token = Some("\ttok\n");
    let config = load_config(&input, ConfigMode::RequireSyncConfig, &KeyValues::new(), no_file())
        .unwrap()
        .unwrap();
    assert_eq!(config.sid, "group-b");
    assert_eq!(config.sid_token, "tok");
}

#[test]
fn config_file_lines_are_parsed() {
    let map = parse_config_key_values("# comment\n\n A = 1 \nB=x=y\nnoequals\nA=2\r\n");
    assert_eq!(map.get("A"), Some("2".to_owned()));
    assert_eq!(map.get("B"), Some("x=y".to_owned()));
    assert_eq!(map.get("noequals"), None);
    assert_eq!(map.get("# comment"), None);
}

#[test]
fn bool_words_are_recognized() {
    for word in ["1", "true", " YES ", "On"] {
        assert_eq!(parse_bool(word.to_owned()), Some(true));
    }
    for word in ["0", "FALSE", "no", "off "] {
        assert_eq!(parse_bool(word.to_owned()), Some(false));
    }
    assert_eq!(parse_bool("maybe".to_owned()), None);
}

#[test]
fn flag_resolution_skips_unreadable_words() {
    let env = env_of(&[("E", "perhaps")]);
    let file = env_of(&[("F", "yes")]);
    assert!(resolve_bool(false, "E", &env, &file, "F"));
    assert!(resolve_bool(true, "E", &KeyValues::new(), &KeyValues::new(), "F"));
    assert!(!resolve_bool(false, "E", &KeyValues::new(), &KeyValues::new(), "F"));
}

#[test]
fn number_resolution_skips_unparsable_values() {
    let env = env_of(&[("E", "abc")]);
    let file = env_of(&[("F", "+12")]);
    assert_eq!(resolve_u64(None, "E", &env, &file, "F"), Some(12));
    assert_eq!(resolve_u64(Some(3), "E", &env, &file, "F"), Some(3));
    let big = env_of(&[("E", "18446744073709551616")]);
    assert_eq!(resolve_u64(None, "E", &big, &KeyValues::new(), "F"), None);
}

#[test]
fn string_resolution_precedence() {
    let env = env_of(&[("E", "from-env")]);
    let file = env_of(&[("F", "from-file")]);
    assert_eq!(resolve_string(Some("from-cli"), "E", &env, &file, "F"), Some("from-cli".to_owned()));
    assert_eq!(resolve_string(None, "E", &env, &file, "F"), Some("from-env".to_owned()));
    assert_eq!(resolve_string(None, "E", &KeyValues::new(), &file, "F"), Some("from-file".to_owned()));
    assert_eq!(resolve_string(None, "E", &KeyValues::new(), &KeyValues::new(), "F"), None);
}

#[test]
fn csv_items_are_trimmed_and_unique() {
    assert_eq!(parse_csv(" a, ,b,a ,, c".to_owned()), vec!["a".to_owned(), "b".to_owned(), "c".to_owned()]);
    assert!(parse_csv("".to_owned()).is_empty());
}

#[test]
fn normalize_drops_blank_values() {
    assert_eq!(normalize_non_empty("  x y ".to_owned()), Some("x y".to_owned()));
    assert_eq!(normalize_non_empty(" \t ".to_owned()), None);
}

#[test]
fn config_error_messages() {
    assert_eq!(ConfigError::MissingSid.to_message(), "Missing SID: set --sid or SSH_KEY_SYNC_SID");
    assert_eq!(
        ConfigError::MissingSidToken.to_message(),
        "Missing SID_TOKEN: set --sid-token or SSH_KEY_SYNC_SID_TOKEN"
    );
    assert_eq!(ConfigError::InvalidSid.to_message(), "SID must not be empty");
    assert_eq!(ConfigError::InvalidSidToken.to_message(), "SID_TOKEN must not be empty");
    assert_eq!(ConfigError::InvalidSyncInterval.to_message(), "sync-interval-secs must be greater than 0");
    assert_eq!(
        ConfigError::ConfigFileReadFailed("/x".to_owned()).to_message(),
        "Cannot read config file: /x"
    );
}

#[test]
fn debug_text_is_exact() {
    let mut input = base_input();
    input.bootstrap_peers = Some("a:1,b:2");
    input.tls_ca_path = Some("/ca");
    let config = load_config(&input, ConfigMode::RequireSyncConfig, &KeyValues::new(), no_file())
        .unwrap()
        .unwrap();
    assert_eq!(
        config.debug_string(),
        "AppConfig { sid: \"group-a\", sid_token: \"***\", participant_id: \"unknown-participant\", \
         http_listen_addr: \"0.0.0.0:9922\", udp_announce_addr: \"0.0.0.0:9923\", \
         bootstrap_peers: [\"a:1\", \"b:2\"], sync_interval_secs: 30, \
         public_key_path: \"~/.ssh/id_ed25519.pub\", authorized_keys_path: \"~/.ssh/authorized_keys\", \
         tls_cert_path: None, tls_key_path: None, tls_ca_path: Some(\"/ca\"), tls_server_name: None, \
         insecure_no_tls: false, dry_run: false }"
    );
}

#[test]
fn args_become_config_input() {
    let args = SyncConfigArgs {
        sid: Some("s".to_owned()),
        sid_token: None,
        participant_id: Some("p".to_owned()),
        http_listen_addr: None,
        udp_announce_addr: None,
        bootstrap_peers: None,
        sync_interval_secs: Some(5),
        public_key_path: None,
        authorized_keys_path: None,
        tls_cert_path: None,
        tls_key_path: None,
        tls_ca_path: None,
        tls_server_name: None,
        insecure_no_tls: true,
        dry_run: false,
        config_path: Some("/c".to_owned()),
    };
    let input = config_input_from_args(&args);
    assert_eq!(input.sid, Some("s"));
    assert_eq!(input.sid_token, None);
    assert_eq!(input.participant_id, Some("p"));
    assert_eq!(input.sync_interval_secs, Some(5));
    assert!(input.insecure_no_tls);
    assert_eq!(input.config_path, Some("/c"));
}

#[test]
fn key_values_read_after_write() {
    let mut kv = KeyValues::new();
    assert_eq!(kv.get("k"), None);
    kv.insert("k".to_owned(), "v1".to_owned());
    kv.insert("other".to_owned(), "o".to_owned());
    kv.insert("k".to_owned(), "v2".to_owned());
    assert_eq!(kv.get("k"), Some("v2".to_owned()));
    assert_eq!(kv.get("other"), Some("o".to_owned()));
    assert_eq!(kv.values(), vec!["v2".to_owned(), "o".to_owned()]);
}

#[test]
fn parsed_list_is_stable_when_rejoined() {
    let items = parse_csv(" x, y ,x,,z ".to_owned());
    assert_eq!(parse_csv(items.join(",")), items);
    let empty = parse_csv(" , ".to_owned());
    assert_eq!(parse_csv(empty.join(",")), empty);
}
