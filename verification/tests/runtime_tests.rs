use ssh_key_sync::control::{
    control_runtime_dir_with_env, control_runtime_root_with_env, control_sid_from_current,
    current_sid_from, current_sid_marker_path, daemon_log_file_path, expand_home_path, join_path,
    keep_waiting, kill_arguments, log_file_path, parse_pid, pick_control_sid, pid_file_path,
    pid_status, process_probe_path, sanitize_for_file, stop_file_path, stop_plan, stop_requested,
    waited_after_poll, RuntimeEnv, StopPlan,
};
use ssh_key_sync::runtime::{DaemonStatus, RuntimeError};

#[test]
fn runtime_dir_uses_xdg_when_present() {
    let dir = control_runtime_dir_with_env("group-a", Some("/run/user/1000"), Some("/home/a"))
        .expect("runtime dir should resolve");
    assert_eq!(dir, "/run/user/1000/ssh-key-sync/group-a");
}

#[test]
fn runtime_dir_falls_back_to_home_local_run() {
    let dir = control_runtime_dir_with_env("group-a", None, Some("/home/a"))
        .expect("runtime dir should resolve");
    assert_eq!(dir, "/home/a/.local/run/ssh-key-sync/group-a");
}

#[test]
fn runtime_root_uses_xdg_when_present() {
    let root = control_runtime_root_with_env(Some("/run/user/1000"), Some("/home/a"))
        .expect("runtime root should resolve");
    assert_eq!(root, "/run/user/1000/ssh-key-sync");
}

// ---------------------------------------------------------------------------

fn env(xdg: Option<&str>, home: Option<&str>) -> RuntimeEnv {
    RuntimeEnv { xdg_runtime_dir: xdg.map(str::to_owned), home: home.map(str::to_owned) }
}

#[test]
fn blank_xdg_falls_back_and_no_env_is_an_error() {
    assert_eq!(
        control_runtime_root_with_env(Some("  "), Some("/home/b/")).unwrap(),
        "/home/b/.local/run/ssh-key-sync"
    );
    assert_eq!(control_runtime_root_with_env(None, Some(" ")), Err(RuntimeError::MissingHomeDir));
    assert_eq!(control_runtime_root_with_env(None, None), Err(RuntimeError::MissingHomeDir));
}

#[test]
fn control_files_live_in_the_group_directory() {
    let e = env(Some("/run/user/7"), None);
    assert_eq!(pid_file_path("g/1", &e).unwrap(), "/run/user/7/ssh-key-sync/g_1/daemon.pid");
    assert_eq!(stop_file_path("g/1", &e).unwrap(), "/run/user/7/ssh-key-sync/g_1/daemon.stop");
    assert_eq!(log_file_path("g/1", &e).unwrap(), "/run/user/7/ssh-key-sync/g_1/daemon.log");
    assert_eq!(daemon_log_file_path("g", &e).unwrap(), "/run/user/7/ssh-key-sync/g/daemon.log");
    assert_eq!(current_sid_marker_path(&e).unwrap(), "/run/user/7/ssh-key-sync/current_sid");
    assert_eq!(pid_file_path("g", &env(None, None)), Err(RuntimeError::MissingHomeDir));
}

#[test]
fn sanitize_replaces_unsafe_characters() {
    assert_eq!(sanitize_for_file("group-a_1.x"), "group-a_1.x");
    assert_eq!(sanitize_for_file("a/b c:é"), "a_b_c__");
    assert_eq!(sanitize_for_file(""), "");
}

#[test]
fn path_join_follows_path_rules() {
    assert_eq!(join_path("/a", "b"), "/a/b");
    assert_eq!(join_path("/a/", "b"), "/a/b");
    assert_eq!(join_path("", "b"), "b");
    assert_eq!(join_path("/a", "/b"), "/b");
}

#[test]
fn home_is_expanded() {
    assert_eq!(expand_home_path("~/.ssh/key", Some("/home/u")), "/home/u/.ssh/key");
    assert_eq!(expand_home_path("~", Some("/home/u")), "/home/u");
    assert_eq!(expand_home_path("~", None), "~");
    assert_eq!(expand_home_path("~/x", None), "~/x");
    assert_eq!(expand_home_path("/abs/~/x", Some("/home/u")), "/abs/~/x");
}

#[test]
fn current_sid_prefers_marker_then_single_pid_dir() {
    let none: Vec<String> = Vec::new();
    let one = vec!["g1".to_owned()];
    let two = vec!["g1".to_owned(), "g2".to_owned()];
    assert_eq!(current_sid_from(Some(" g0 \n"), &two), Some("g0".to_owned()));
    assert_eq!(current_sid_from(Some("  "), &one), Some("g1".to_owned()));
    assert_eq!(current_sid_from(None, &one), Some("g1".to_owned()));
    assert_eq!(current_sid_from(None, &two), None);
    assert_eq!(current_sid_from(None, &none), None);
}

#[test]
fn control_sid_selection() {
    assert_eq!(pick_control_sid(Some(" a "), Some("b")), Some("a".to_owned()));
    assert_eq!(pick_control_sid(Some("  "), Some(" b")), Some("b".to_owned()));
    assert_eq!(pick_control_sid(None, None), None);
    assert_eq!(control_sid_from_current(Ok(Some("c".to_owned()))), Ok("c".to_owned()));
    assert_eq!(
        control_sid_from_current(Ok(None)),
        Err("Missing SID: use --sid or start daemon first".to_owned())
    );
    assert_eq!(
        control_sid_from_current(Err(RuntimeError::ControlFile("/p".to_owned()))),
        Err("Failed to access control file at /p".to_owned())
    );
}

#[test]
fn pid_files_and_status() {
    assert_eq!(parse_pid("123\n"), Some(123));
    assert_eq!(parse_pid("abc"), None);
    assert_eq!(parse_pid("4294967296"), None);
    assert_eq!(pid_status(5, true), DaemonStatus::Running { pid: 5 });
    assert_eq!(pid_status(5, false), DaemonStatus::StalePidFile { pid: 5 });
    assert_eq!(process_probe_path(42), "/proc/42");
}

#[test]
fn stop_decisions() {
    let running = stop_plan(&DaemonStatus::Running { pid: 9 });
    assert_eq!(running, StopPlan::RequestStop { pid: 9 });
    assert!(stop_requested(&running));
    assert_eq!(stop_plan(&DaemonStatus::StalePidFile { pid: 9 }), StopPlan::RemoveStaleFiles);
    assert!(!stop_requested(&StopPlan::RemoveStaleFiles));
    assert_eq!(stop_plan(&DaemonStatus::Stopped), StopPlan::NothingToStop);
    assert!(keep_waiting(true, 2950));
    assert!(!keep_waiting(true, 3000));
    assert!(!keep_waiting(false, 0));
    assert_eq!(waited_after_poll(100), 150);
    assert_eq!(kill_arguments(77), vec!["-TERM".to_owned(), "77".to_owned()]);
}

#[test]
fn runtime_error_messages() {
    assert_eq!(RuntimeError::KillProcess(12).to_message(), "Failed to terminate process with pid 12");
    assert_eq!(
        RuntimeError::MissingHomeDir.to_message(),
        "Cannot resolve runtime directory: set XDG_RUNTIME_DIR or HOME"
    );
    assert_eq!(RuntimeError::BindHttp("0.0.0.0:1".to_owned()).to_message(), "Failed to bind HTTP listener at 0.0.0.0:1");
    assert_eq!(RuntimeError::ParseEnvelope.to_message(), "Failed to parse signed envelope");
}
