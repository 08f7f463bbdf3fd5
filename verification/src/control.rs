//! Daemon control artifacts: where they live, and the decisions that `status`, `stop` and
//! SID discovery make from what they hold.
use vstd::prelude::*;

use crate::runtime::{DaemonStatus, RuntimeError, RuntimeErrorView};
use crate::text::{
    append_range, chars_of, decimal, decimal_string, parse_unsigned, parse_unsigned_vec, trim,
    trim_str, trim_vec,
};

verus! {

pub const CONTROL_ROOT_DIR: &'static str = "ssh-key-sync";

pub const PID_FILE_NAME: &'static str = "daemon.pid";

pub const STOP_FILE_NAME: &'static str = "daemon.stop";

pub const LOG_FILE_NAME: &'static str = "daemon.log";

pub const CURRENT_SID_FILE_NAME: &'static str = "current_sid";

pub const STOP_WAIT_MILLIS: u64 = 3000;

pub const STOP_POLL_MILLIS: u64 = 50;

/// `Path::join` on Unix: an absolute component replaces the base; otherwise a `/` is put
/// between them unless the base is empty or already ends with one.
pub open spec fn path_join(base: Seq<char>, comp: Seq<char>) -> Seq<char> {
    if comp.len() > 0 && comp[0] == '/' {
        comp
    } else if base.len() > 0 && base.last() != '/' {
        base.push('/') + comp
    } else {
        base + comp
    }
}

/// Joins a path component onto a base path.
pub fn join_path(base: &str, comp: &str) -> (r: String)
    ensures
        r@ == path_join(base@, comp@),
{
    let b = chars_of(base);
    let c = chars_of(comp);
    if c.len() > 0 && c[0] == '/' {
        return comp.to_owned();
    }
    let mut r = base.to_owned();
    if b.len() > 0 && b[b.len() - 1] != '/' {
        crate::text::append_char(&mut r, '/');
    }
    r.append(comp);
    r
}

/// A character allowed in a file name as it is: ASCII letters and digits, `-`, `_`, `.`.
pub open spec fn file_safe(c: char) -> bool {
    let u = c as u32;
    (48 <= u <= 57) || (65 <= u <= 90) || (97 <= u <= 122) || u == 45 || u == 95 || u == 46
}

/// Each character kept if it is file-safe, else replaced by `_`.
pub open spec fn sanitized(s: Seq<char>) -> Seq<char> {
    Seq::new(s.len(), |i: int| if file_safe(s[i]) { s[i] } else { '_' })
}

fn char_file_safe(c: char) -> (r: bool)
    ensures
        r == file_safe(c),
{
    let u = c as u32;
    (48 <= u && u <= 57) || (65 <= u && u <= 90) || (97 <= u && u <= 122) || u == 45 || u == 95
        || u == 46
}

/// Makes a text usable as one file name: every character that is not an ASCII letter or
/// digit, `-`, `_` or `.` becomes `_`.
pub fn sanitize_for_file(value: &str) -> (r: String)
    ensures
        r@ == sanitized(value@),
        r@.len() == value@.len(),
        forall|i: int| 0 <= i < r@.len() ==> file_safe(#[trigger] r@[i]),
{
    let v = chars_of(value);
    let mut out = String::new();
    let mut i: usize = 0;
    while i < v.len()
        invariant
            i <= v@.len(),
            v@ == value@,
            out@ == sanitized(v@.take(i as int)),
        decreases v.len() - i,
    {
        let c = v[i];
        let d = if char_file_safe(c) {
            c
        } else {
            '_'
        };
        crate::text::append_char(&mut out, d);
        i += 1;
        assert(sanitized(v@.take(i as int)) == sanitized(v@.take(i - 1)).push(d));
    }
    assert(v@.take(v@.len() as int) == v@);
    out
}

/// The environment values that locate the control directory.
pub struct RuntimeEnv {
    pub xdg_runtime_dir: Option<String>,
    pub home: Option<String>,
}

pub open spec fn opt_view(o: Option<&str>) -> Option<Seq<char>> {
    match o {
        Some(s) => Some(s@),
        None => None,
    }
}

pub open spec fn opt_string_view(o: Option<String>) -> Option<Seq<char>> {
    match o {
        Some(s) => Some(s@),
        None => None,
    }
}

/// The control root: `$XDG_RUNTIME_DIR/ssh-key-sync` when that variable is set and not
/// blank, else `$HOME/.local/run/ssh-key-sync` when `HOME` is set and not blank.
pub open spec fn spec_control_root(xdg: Option<Seq<char>>, home: Option<Seq<char>>) -> Option<Seq<char>> {
    if xdg is Some && trim(xdg->0).len() > 0 {
        Some(path_join(xdg->0, CONTROL_ROOT_DIR@))
    } else if home is Some && trim(home->0).len() > 0 {
        Some(path_join(path_join(path_join(home->0, ".local"@), "run"@), CONTROL_ROOT_DIR@))
    } else {
        None
    }
}

/// A path, or `MissingHomeDir` when no root can be found.
pub open spec fn path_result_ok(r: Result<String, RuntimeError>, expected: Option<Seq<char>>) -> bool {
    match r {
        Ok(p) => expected == Some(p@),
        Err(e) => expected is None && e@ == RuntimeErrorView::MissingHomeDir,
    }
}

fn not_blank(s: &str) -> (r: bool)
    ensures
        r == (trim(s@).len() > 0),
{
    let t = trim_str(s);
    !t.as_str().is_empty()
}

/// The control root directory for the given environment values.
pub fn control_runtime_root_with_env(
    xdg_runtime_dir: Option<&str>,
    home: Option<&str>,
) -> (r: Result<String, RuntimeError>)
    ensures
        path_result_ok(r, spec_control_root(opt_view(xdg_runtime_dir), opt_view(home))),
{
    if let Some(path) = xdg_runtime_dir {
        if not_blank(path) {
            return Ok(join_path(path, CONTROL_ROOT_DIR));
        }
    }
    if let Some(path) = home {
        if not_blank(path) {
            let local = join_path(path, ".local");
            let run = join_path(local.as_str(), "run");
            return Ok(join_path(run.as_str(), CONTROL_ROOT_DIR));
        }
    }
    Err(RuntimeError::MissingHomeDir)
}

pub open spec fn spec_join_root(root: Option<Seq<char>>, comp: Seq<char>) -> Option<Seq<char>> {
    match root {
        Some(r) => Some(path_join(r, comp)),
        None => None,
    }
}

fn join_result(r: Result<String, RuntimeError>, comp: &str) -> (out: Result<String, RuntimeError>)
    ensures
        match r {
            Ok(p) => out is Ok && out->Ok_0@ == path_join(p@, comp@),
            Err(e) => out is Err && out->Err_0@ == e@,
        },
{
    match r {
        Ok(p) => Ok(join_path(p.as_str(), comp)),
        Err(e) => Err(e),
    }
}

/// The control directory of one group: the control root joined with the sanitized SID.
pub fn control_runtime_dir_with_env(
    sid: &str,
    xdg_runtime_dir: Option<&str>,
    home: Option<&str>,
) -> (r: Result<String, RuntimeError>)
    ensures
        path_result_ok(r, spec_join_root(spec_control_root(opt_view(xdg_runtime_dir), opt_view(home)), sanitized(sid@))),
{
    let root = control_runtime_root_with_env(xdg_runtime_dir, home);
    let name = sanitize_for_file(sid);
    join_result(root, name.as_str())
}

fn env_xdg(env: &RuntimeEnv) -> (r: Option<&str>)
    ensures
        opt_view(r) == opt_string_view(env.xdg_runtime_dir),
{
    match &env.xdg_runtime_dir {
        Some(s) => Some(s.as_str()),
        None => None,
    }
}

fn env_home(env: &RuntimeEnv) -> (r: Option<&str>)
    ensures
        opt_view(r) == opt_string_view(env.home),
{
    match &env.home {
        Some(s) => Some(s.as_str()),
        None => None,
    }
}

pub open spec fn spec_env_root(env: RuntimeEnv) -> Option<Seq<char>> {
    spec_control_root(opt_string_view(env.xdg_runtime_dir), opt_string_view(env.home))
}

pub open spec fn spec_sid_dir(sid: Seq<char>, env: RuntimeEnv) -> Option<Seq<char>> {
    spec_join_root(spec_env_root(env), sanitized(sid))
}

/// The control directory of one group in the given environment.
pub fn control_runtime_dir_path_for_sid(sid: &str, env: &RuntimeEnv) -> (r: Result<String, RuntimeError>)
    ensures
        path_result_ok(r, spec_sid_dir(sid@, *env)),
{
    control_runtime_dir_with_env(sid, env_xdg(env), env_home(env))
}

/// The control root in the given environment.
pub fn control_runtime_root_path(env: &RuntimeEnv) -> (r: Result<String, RuntimeError>)
    ensures
        path_result_ok(r, spec_env_root(*env)),
{
    control_runtime_root_with_env(env_xdg(env), env_home(env))
}

/// The pid file of one group.
pub fn pid_file_path(sid: &str, env: &RuntimeEnv) -> (r: Result<String, RuntimeError>)
    ensures
        path_result_ok(r, spec_join_root(spec_sid_dir(sid@, *env), PID_FILE_NAME@)),
{
    join_result(control_runtime_dir_path_for_sid(sid, env), PID_FILE_NAME)
}

/// The stop-request file of one group.
pub fn stop_file_path(sid: &str, env: &RuntimeEnv) -> (r: Result<String, RuntimeError>)
    ensures
        path_result_ok(r, spec_join_root(spec_sid_dir(sid@, *env), STOP_FILE_NAME@)),
{
    join_result(control_runtime_dir_path_for_sid(sid, env), STOP_FILE_NAME)
}

/// The log file of one group.
pub fn log_file_path(sid: &str, env: &RuntimeEnv) -> (r: Result<String, RuntimeError>)
    ensures
        path_result_ok(r, spec_join_root(spec_sid_dir(sid@, *env), LOG_FILE_NAME@)),
{
    join_result(control_runtime_dir_path_for_sid(sid, env), LOG_FILE_NAME)
}

/// The daemon log file of one group, as displayed to the user.
pub fn daemon_log_file_path(sid: &str, env: &RuntimeEnv) -> (r: Result<String, RuntimeError>)
    ensures
        path_result_ok(r, spec_join_root(spec_sid_dir(sid@, *env), LOG_FILE_NAME@)),
{
    log_file_path(sid, env)
}

/// The marker file that names the SID of the daemon started last.
pub fn current_sid_marker_path(env: &RuntimeEnv) -> (r: Result<String, RuntimeError>)
    ensures
        path_result_ok(r, spec_join_root(spec_env_root(*env), CURRENT_SID_FILE_NAME@)),
{
    join_result(control_runtime_root_path(env), CURRENT_SID_FILE_NAME)
}

/// The path whose existence shows that process `pid` is alive.
pub fn process_probe_path(pid: u32) -> (r: String)
    ensures
        r@ == "/proc/"@ + decimal(pid as nat),
{
    let mut r = "/proc/".to_owned();
    let digits = decimal_string(pid as u128);
    r.append(digits.as_str());
    r
}

/// `~` and a leading `~/` stand for the home directory, when it is known.
pub open spec fn spec_expand_home(path: Seq<char>, home: Option<Seq<char>>) -> Seq<char> {
    if path == "~"@ {
        match home {
            Some(h) => h,
            None => path,
        }
    } else if path.len() >= 2 && path[0] == '~' && path[1] == '/' && home is Some {
        home->0.push('/') + path.skip(2)
    } else {
        path
    }
}

/// Expands a leading `~` with the value of `HOME`.
pub fn expand_home_path(path: &str, home: Option<&str>) -> (r: String)
    ensures
        r@ == spec_expand_home(path@, opt_view(home)),
{
    let v = chars_of(path);
    if crate::text::chars_eq_str(v.as_slice(), "~") {
        return match home {
            Some(h) => h.to_owned(),
            None => path.to_owned(),
        };
    }
    if v.len() >= 2 && v[0] == '~' && v[1] == '/' {
        if let Some(h) = home {
            let mut r = h.to_owned();
            crate::text::append_char(&mut r, '/');
            append_range(&mut r, v.as_slice(), 2, v.len());
            assert(v@.subrange(2, v@.len() as int) == path@.skip(2));
            return r;
        }
    }
    path.to_owned()
}

/// The SID of the one group that has a pid file; none when there are none or several.
pub open spec fn spec_unique_sid(candidates: Seq<Seq<char>>) -> Option<Seq<char>> {
    if candidates.len() == 1 {
        Some(candidates[0])
    } else {
        None
    }
}

/// The current SID: the marker's, else the only group with a pid file.
pub open spec fn spec_current_sid(marker: Option<Seq<char>>, candidates: Seq<Seq<char>>) -> Option<Seq<char>> {
    match marker {
        Some(m) if trim(m).len() > 0 => Some(trim(m)),
        _ => spec_unique_sid(candidates),
    }
}

/// Decides the current SID from the marker file's content (if the file exists) and the
/// names of the group directories that hold a pid file.
pub fn current_sid_from(marker: Option<&str>, candidates: &Vec<String>) -> (r: Option<String>)
    ensures
        opt_string_view(r) == spec_current_sid(opt_view(marker), crate::config::texts(candidates@)),
{
    if let Some(content) = marker {
        let t = trim_str(content);
        if !t.as_str().is_empty() {
            return Some(t);
        }
    }
    if candidates.len() == 1 {
        Some(candidates[0].clone())
    } else {
        None
    }
}

/// The SID a control command acts on, when given: the explicit one, else the one from the
/// environment, each trimmed and ignored when blank.
pub open spec fn spec_pick_sid(explicit: Option<Seq<char>>, env_sid: Option<Seq<char>>) -> Option<Seq<char>> {
    match explicit {
        Some(s) if trim(s).len() > 0 => Some(trim(s)),
        _ => match env_sid {
            Some(s) if trim(s).len() > 0 => Some(trim(s)),
            _ => None,
        },
    }
}

pub fn pick_control_sid(explicit: Option<&str>, env_sid: Option<&str>) -> (r: Option<String>)
    ensures
        opt_string_view(r) == spec_pick_sid(opt_view(explicit), opt_view(env_sid)),
{
    if let Some(sid) = explicit {
        let t = trim_str(sid);
        if !t.as_str().is_empty() {
            return Some(t);
        }
    }
    if let Some(sid) = env_sid {
        let t = trim_str(sid);
        if !t.as_str().is_empty() {
            return Some(t);
        }
    }
    None
}

/// The message when no SID can be found.
pub open spec fn missing_sid_message() -> Seq<char> {
    "Missing SID: use --sid or start daemon first"@
}

/// Turns the outcome of looking up the current SID into the SID or the message to print.
pub fn control_sid_from_current(current: Result<Option<String>, RuntimeError>) -> (r: Result<String, String>)
    ensures
        match current {
            Ok(Some(s)) => r is Ok && r->Ok_0@ == s@,
            Ok(None) => r is Err && r->Err_0@ == missing_sid_message(),
            Err(e) => r is Err && r->Err_0@ == crate::runtime::runtime_error_message(e@),
        },
{
    match current {
        Ok(Some(sid)) => Ok(sid),
        Ok(None) => Err("Missing SID: use --sid or start daemon first".to_owned()),
        Err(error) => Err(error.to_message()),
    }
}

/// The pid that a pid file's content names: its trimmed text as a `u32`.
pub open spec fn spec_pid(content: Seq<char>) -> Option<u32> {
    match parse_unsigned(trim(content), u32::MAX as nat) {
        Some(n) => Some(n as u32),
        None => None,
    }
}

/// Reads the pid of a pid file.
pub fn parse_pid(content: &str) -> (r: Option<u32>)
    ensures
        r == spec_pid(content@),
        match r {
            Some(p) => parse_unsigned(trim(content@), u32::MAX as nat) == Some(p as nat),
            None => parse_unsigned(trim(content@), u32::MAX as nat) is None,
        },
{
    let v = chars_of(content);
    let t = trim_vec(v.as_slice());
    match parse_unsigned_vec(t.as_slice(), u32::MAX as u64) {
        Some(n) => Some(n as u32),
        None => None,
    }
}

/// The status a pid file shows: running when its process is alive, else stale.
pub fn pid_status(pid: u32, process_alive: bool) -> (r: DaemonStatus)
    ensures
        r == (if process_alive { DaemonStatus::Running { pid } } else { DaemonStatus::StalePidFile { pid } }),
{
    if process_alive {
        DaemonStatus::Running { pid }
    } else {
        DaemonStatus::StalePidFile { pid }
    }
}

/// What `stop` does for each status.
#[derive(Debug, Clone, PartialEq, Eq, Structural)]
pub enum StopPlan {
    /// Write the stop file, wait for the process, then terminate it if it is still alive.
    RequestStop { pid: u32 },
    /// Remove the stale pid and stop files.
    RemoveStaleFiles,
    /// Nothing runs.
    NothingToStop,
}

pub fn stop_plan(status: &DaemonStatus) -> (r: StopPlan)
    ensures
        r == (match *status {
            DaemonStatus::Running { pid } => StopPlan::RequestStop { pid },
            DaemonStatus::StalePidFile { .. } => StopPlan::RemoveStaleFiles,
            DaemonStatus::Stopped => StopPlan::NothingToStop,
        }),
{
    match status {
        DaemonStatus::Running { pid } => StopPlan::RequestStop { pid: *pid },
        DaemonStatus::StalePidFile { .. } => StopPlan::RemoveStaleFiles,
        DaemonStatus::Stopped => StopPlan::NothingToStop,
    }
}

/// What `stop` reports: whether a stop was requested from a running daemon.
pub fn stop_requested(plan: &StopPlan) -> (r: bool)
    ensures
        r == (*plan is RequestStop),
{
    match plan {
        StopPlan::RequestStop { .. } => true,
        _ => false,
    }
}

/// Whether to keep waiting for a stopping process: while it is alive and less than
/// `STOP_WAIT_MILLIS` have passed.
pub fn keep_waiting(process_alive: bool, waited_millis: u64) -> (r: bool)
    ensures
        r == (process_alive && waited_millis < STOP_WAIT_MILLIS),
{
    process_alive && waited_millis < STOP_WAIT_MILLIS
}

/// The time waited after one more poll.
pub fn waited_after_poll(waited_millis: u64) -> (r: u64)
    requires
        waited_millis + STOP_POLL_MILLIS <= u64::MAX,
    ensures
        r == waited_millis + STOP_POLL_MILLIS,
{
    waited_millis + STOP_POLL_MILLIS
}

/// The arguments of the `kill` command that terminates `pid`.
pub fn kill_arguments(pid: u32) -> (r: Vec<String>)
    ensures
        r@.len() == 2,
        r@[0]@ == "-TERM"@,
        r@[1]@ == decimal(pid as nat),
{
    let mut r: Vec<String> = Vec::new();
    r.push("-TERM".to_owned());
    r.push(decimal_string(pid as u128));
    r
}

// ---------------------------------------------------------------------------
// Laws
// ---------------------------------------------------------------------------

/// Sanitizing keeps the length and changes exactly the characters that are not an ASCII
/// digit (codes 48 to 57), an ASCII letter (65 to 90, 97 to 122), `-` (45), `_` (95) or
/// `.` (46), each into `_`.
pub proof fn law_sanitize_characters(s: Seq<char>)
    ensures
        sanitized(s).len() == s.len(),
        forall|i: int|
            0 <= i < s.len() ==> #[trigger] sanitized(s)[i] == (if (48 <= (s[i] as u32) <= 57) || (65 <= (s[i] as u32) <= 90)
                || (97 <= (s[i] as u32) <= 122) || (s[i] as u32) == 45 || (s[i] as u32) == 95 || (s[i] as u32) == 46 {
                s[i]
            } else {
                '_'
            }),
{
}

/// A name made only of ASCII letters and digits, `-`, `_` and `.` is its own file name.
pub proof fn law_plain_name_kept(s: Seq<char>)
    requires
        forall|i: int|
            0 <= i < s.len() ==> (48 <= (#[trigger] s[i] as u32) <= 57) || (65 <= (s[i] as u32) <= 90)
                || (97 <= (s[i] as u32) <= 122) || (s[i] as u32) == 45 || (s[i] as u32) == 95 || (s[i] as u32) == 46,
    ensures
        sanitized(s) == s,
{
    assert(sanitized(s) =~= s);
}

/// Two different plain SIDs (ASCII letters and digits, `-`, `_`, `.`) get different
/// control directories in the same environment.
pub proof fn law_plain_sid_dirs_distinct(a: Seq<char>, b: Seq<char>, env: RuntimeEnv)
    requires
        forall|i: int|
            0 <= i < a.len() ==> (48 <= (#[trigger] a[i] as u32) <= 57) || (65 <= (a[i] as u32) <= 90)
                || (97 <= (a[i] as u32) <= 122) || (a[i] as u32) == 45 || (a[i] as u32) == 95 || (a[i] as u32) == 46,
        forall|i: int|
            0 <= i < b.len() ==> (48 <= (#[trigger] b[i] as u32) <= 57) || (65 <= (b[i] as u32) <= 90)
                || (97 <= (b[i] as u32) <= 122) || (b[i] as u32) == 45 || (b[i] as u32) == 95 || (b[i] as u32) == 46,
        a != b,
        spec_env_root(env) is Some,
    ensures
        spec_sid_dir(a, env) != spec_sid_dir(b, env),
{
    law_plain_name_kept(a);
    law_plain_name_kept(b);
    let r = spec_env_root(env)->0;
    let pre = if r.len() > 0 && r.last() != '/' { r.push('/') } else { r };
    if a.len() > 0 {
        assert(a[0] != '/');
    }
    if b.len() > 0 {
        assert(b[0] != '/');
    }
    assert(path_join(r, a) == pre + a);
    assert(path_join(r, b) == pre + b);
    if pre + a == pre + b {
        assert((pre + a).skip(pre.len() as int) =~= a);
        assert((pre + b).skip(pre.len() as int) =~= b);
    }
}

/// The control root is `$XDG_RUNTIME_DIR/ssh-key-sync` when that variable is set and not
/// blank, else `$HOME/.local/run/ssh-key-sync` when `HOME` is set and not blank, else
/// there is none (for directories written without a trailing `/`).
pub proof fn law_control_root_paths(xdg: Option<Seq<char>>, home: Option<Seq<char>>)
    ensures
        xdg is Some && trim(xdg->0).len() > 0 && xdg->0.last() != '/' ==> spec_control_root(xdg, home) == Some(
            xdg->0 + "/ssh-key-sync"@,
        ),
        (xdg is None || trim(xdg->0).len() == 0) && home is Some && trim(home->0).len() > 0 && home->0.last() != '/'
            ==> spec_control_root(xdg, home) == Some(home->0 + "/.local/run/ssh-key-sync"@),
        (xdg is None || trim(xdg->0).len() == 0) && (home is None || trim(home->0).len() == 0) ==> spec_control_root(
            xdg,
            home,
        ) is None,
{
    reveal_strlit("ssh-key-sync");
    reveal_strlit("/ssh-key-sync");
    reveal_strlit(".local");
    reveal_strlit("run");
    reveal_strlit("/.local/run/ssh-key-sync");
    if xdg is Some && trim(xdg->0).len() > 0 && xdg->0.last() != '/' {
        let x = xdg->0;
        assert(x.len() > 0);
        assert(path_join(x, CONTROL_ROOT_DIR@) =~= x + "/ssh-key-sync"@);
    }
    if (xdg is None || trim(xdg->0).len() == 0) && home is Some && trim(home->0).len() > 0 && home->0.last() != '/' {
        let h = home->0;
        assert(h.len() > 0);
        let a = path_join(h, ".local"@);
        assert(a =~= h.push('/') + ".local"@);
        assert(a.last() == 'l');
        let b = path_join(a, "run"@);
        assert(b =~= a.push('/') + "run"@);
        assert(b.last() == 'n');
        assert(path_join(b, CONTROL_ROOT_DIR@) =~= h + "/.local/run/ssh-key-sync"@);
    }
}

/// `~` stands for the home directory and `~/<rest>` for `<home>/<rest>`, when the home
/// directory is known; every other path, and every path without a known home, is kept.
pub proof fn law_expand_home(rest: Seq<char>, path: Seq<char>, home: Seq<char>)
    ensures
        spec_expand_home("~"@, Some(home)) == home,
        spec_expand_home("~/"@ + rest, Some(home)) == home + "/"@ + rest,
        spec_expand_home(path, None) == path,
        (path.len() == 0 || path[0] != '~') ==> spec_expand_home(path, Some(home)) == path,
{
    reveal_strlit("~");
    reveal_strlit("~/");
    reveal_strlit("/");
    let p = "~/"@ + rest;
    assert(p[0] == '~' && p[1] == '/');
    assert(p != "~"@) by {
        assert(p.len() != 1);
    }
    assert(p.skip(2) =~= rest);
    assert(home.push('/') + rest =~= home + "/"@ + rest);
    if path.len() == 0 || path[0] != '~' {
        if path == "~"@ {
            assert(path[0] == '~');
        }
    }
}

/// The current SID: the trimmed marker when the marker file holds a non-blank SID, else the
/// one group with a pid file when there is exactly one, else none.
pub proof fn law_current_sid_precedence(marker: Option<Seq<char>>, candidates: Seq<Seq<char>>)
    ensures
        marker is Some && trim(marker->0).len() > 0 ==> spec_current_sid(marker, candidates) == Some(trim(marker->0)),
        (marker is None || trim(marker->0).len() == 0) && candidates.len() == 1 ==> spec_current_sid(marker, candidates)
            == Some(candidates[0]),
        (marker is None || trim(marker->0).len() == 0) && candidates.len() != 1 ==> spec_current_sid(
            marker,
            candidates,
        ) is None,
{
}

/// A pid file holding a pid in decimal, with or without a final line break, names that
/// pid, for every `u32`.
pub proof fn law_pid_file_content(pid: u32)
    ensures
        spec_pid(decimal(pid as nat)) == Some(pid),
        spec_pid(decimal(pid as nat) + "\n"@) == Some(pid),
{
    reveal_strlit("\n");
    let d = decimal(pid as nat);
    crate::text::law_decimal_roundtrip(pid as nat, u32::MAX as nat);
    assert(crate::text::is_digit(d[0]));
    assert(crate::text::is_digit(d[d.len() - 1]));
    assert(d.last() == d[d.len() - 1]);
    crate::text::lemma_trim_of_trimmed(d);
    let t = d + "\n"@;
    assert(t =~= d.push('\n'));
    crate::text::lemma_trim_start_shape(t);
    assert(t[0] == d[0]);
    assert(crate::text::trim_start(t) == t);
    assert(t.drop_last() =~= d);
    assert(crate::text::trim_end(t) == crate::text::trim_end(d));
    assert(crate::text::trim_end(d) == d);
}

/// The SID a control command acts on: a non-blank `--sid`, trimmed; else a non-blank
/// `SSH_KEY_SYNC_SID`, trimmed, also when `--sid` is absent; else none.
pub proof fn law_pick_sid_precedence(explicit: Option<Seq<char>>, env_sid: Option<Seq<char>>)
    ensures
        explicit is Some && trim(explicit->0).len() > 0 ==> spec_pick_sid(explicit, env_sid) == Some(trim(explicit->0)),
        (explicit is None || trim(explicit->0).len() == 0) && env_sid is Some && trim(env_sid->0).len() > 0
            ==> spec_pick_sid(explicit, env_sid) == Some(trim(env_sid->0)),
        (explicit is None || trim(explicit->0).len() == 0) && (env_sid is None || trim(env_sid->0).len() == 0)
            ==> spec_pick_sid(explicit, env_sid) is None,
{
}

} // verus!
