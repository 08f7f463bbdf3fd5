//! The debug text of a configuration, with the SID token masked.
use vstd::prelude::*;

use crate::config::{AppConfig, AppConfigView};
use crate::text::{decimal, decimal_string};

verus! {

/// What `format!("{:?}", s)` gives for a text: the text quoted, with escapes.
pub uninterp spec fn debug_quoted(s: Seq<char>) -> Seq<char>;

/// Calls the standard `Debug` formatting of `str` (through `format!`). Claimed: the result
/// is a function of the text alone, named `debug_quoted`; nothing else about it is stated.
#[verifier::external_body]
fn quote_debug(s: &str) -> (r: String)
    ensures
        r@ == debug_quoted(s@),
{
    format!("{:?}", s)
}

/// The text that stands in for the SID token.
pub const MASK: &'static str = "***";

pub open spec fn debug_bool(b: bool) -> Seq<char> {
    if b {
        "true"@
    } else {
        "false"@
    }
}

pub open spec fn debug_opt(o: Option<Seq<char>>) -> Seq<char> {
    match o {
        Some(q) => "Some("@ + q + ")"@,
        None => "None"@,
    }
}

/// Already-quoted list items, separated by `, `.
pub open spec fn debug_items(v: Seq<Seq<char>>) -> Seq<char>
    decreases v.len(),
{
    if v.len() == 0 {
        Seq::empty()
    } else if v.len() == 1 {
        v[0]
    } else {
        debug_items(v.drop_last()) + ", "@ + v.last()
    }
}

pub open spec fn debug_list(v: Seq<Seq<char>>) -> Seq<char> {
    "["@ + debug_items(v) + "]"@
}

/// The quoted forms of a configuration's text fields.
pub struct QuotedFields {
    pub sid: String,
    pub sid_token: String,
    pub participant_id: String,
    pub http_listen_addr: String,
    pub udp_announce_addr: String,
    pub bootstrap_peers: Vec<String>,
    pub public_key_path: String,
    pub authorized_keys_path: String,
    pub tls_cert_path: Option<String>,
    pub tls_key_path: Option<String>,
    pub tls_ca_path: Option<String>,
    pub tls_server_name: Option<String>,
}

/// The debug layout of a configuration, given the quoted forms of its text fields.
pub open spec fn debug_layout(q: QuotedFields, sync_interval_secs: u64, insecure_no_tls: bool, dry_run: bool) -> Seq<char> {
    "AppConfig { sid: "@ + q.sid@
        + ", sid_token: "@ + q.sid_token@
        + ", participant_id: "@ + q.participant_id@
        + ", http_listen_addr: "@ + q.http_listen_addr@
        + ", udp_announce_addr: "@ + q.udp_announce_addr@
        + ", bootstrap_peers: "@ + debug_list(crate::config::texts(q.bootstrap_peers@))
        + ", sync_interval_secs: "@ + decimal(sync_interval_secs as nat)
        + ", public_key_path: "@ + q.public_key_path@
        + ", authorized_keys_path: "@ + q.authorized_keys_path@
        + ", tls_cert_path: "@ + debug_opt(crate::config::opt_string(q.tls_cert_path))
        + ", tls_key_path: "@ + debug_opt(crate::config::opt_string(q.tls_key_path))
        + ", tls_ca_path: "@ + debug_opt(crate::config::opt_string(q.tls_ca_path))
        + ", tls_server_name: "@ + debug_opt(crate::config::opt_string(q.tls_server_name))
        + ", insecure_no_tls: "@ + debug_bool(insecure_no_tls)
        + ", dry_run: "@ + debug_bool(dry_run)
        + " }"@
}

pub open spec fn quoted_opt(o: Option<Seq<char>>) -> Option<Seq<char>> {
    match o {
        Some(s) => Some(debug_quoted(s)),
        None => None,
    }
}

/// The debug text of a configuration: every field as `Debug` shows it, except the SID token,
/// shown as `"***"`.
pub open spec fn config_debug_text(c: AppConfigView) -> Seq<char> {
    "AppConfig { sid: "@ + debug_quoted(c.sid)
        + ", sid_token: "@ + debug_quoted(MASK@)
        + ", participant_id: "@ + debug_quoted(c.participant_id)
        + ", http_listen_addr: "@ + debug_quoted(c.http_listen_addr)
        + ", udp_announce_addr: "@ + debug_quoted(c.udp_announce_addr)
        + ", bootstrap_peers: "@ + debug_list(Seq::new(c.bootstrap_peers.len(), |i: int| debug_quoted(c.bootstrap_peers[i])))
        + ", sync_interval_secs: "@ + decimal(c.sync_interval_secs as nat)
        + ", public_key_path: "@ + debug_quoted(c.public_key_path)
        + ", authorized_keys_path: "@ + debug_quoted(c.authorized_keys_path)
        + ", tls_cert_path: "@ + debug_opt(quoted_opt(c.tls_cert_path))
        + ", tls_key_path: "@ + debug_opt(quoted_opt(c.tls_key_path))
        + ", tls_ca_path: "@ + debug_opt(quoted_opt(c.tls_ca_path))
        + ", tls_server_name: "@ + debug_opt(quoted_opt(c.tls_server_name))
        + ", insecure_no_tls: "@ + debug_bool(c.insecure_no_tls)
        + ", dry_run: "@ + debug_bool(c.dry_run)
        + " }"@
}

fn push_opt(out: &mut String, o: &Option<String>)
    ensures
        final(out)@ == old(out)@ + debug_opt(crate::config::opt_string(*o)),
{
    match o {
        Some(q) => {
            out.append("Some(");
            out.append(q.as_str());
            out.append(")");
        },
        None => out.append("None"),
    }
}

fn push_bool(out: &mut String, b: bool)
    ensures
        final(out)@ == old(out)@ + debug_bool(b),
{
    if b {
        out.append("true");
    } else {
        out.append("false");
    }
}

fn push_list(out: &mut String, items: &Vec<String>)
    ensures
        final(out)@ == old(out)@ + debug_list(crate::config::texts(items@)),
{
    let ghost start = out@;
    out.append("[");
    let mut i: usize = 0;
    while i < items.len()
        invariant
            i <= items@.len(),
            out@ == start + "["@ + debug_items(crate::config::texts(items@).take(i as int)),
        decreases items.len() - i,
    {
        let ghost t = crate::config::texts(items@);
        assert(t.take(i + 1).drop_last() == t.take(i as int));
        assert(t.take(i + 1).last() == items@[i as int]@);
        if i > 0 {
            out.append(", ");
        }
        out.append(items[i].as_str());
        proof {
            if i == 0 {
                assert(t.take(1) == seq![items@[0]@]);
            }
        }
        i += 1;
    }
    assert(crate::config::texts(items@).take(items@.len() as int) == crate::config::texts(items@));
    out.append("]");
}

/// Lays out the debug text of a configuration from the quoted forms of its text fields.
pub fn render_debug(q: &QuotedFields, sync_interval_secs: u64, insecure_no_tls: bool, dry_run: bool) -> (r: String)
    ensures
        r@ == debug_layout(*q, sync_interval_secs, insecure_no_tls, dry_run),
{
    let mut out = "AppConfig { sid: ".to_owned();
    out.append(q.sid.as_str());
    out.append(", sid_token: ");
    out.append(q.sid_token.as_str());
    out.append(", participant_id: ");
    out.append(q.participant_id.as_str());
    out.append(", http_listen_addr: ");
    out.append(q.http_listen_addr.as_str());
    out.append(", udp_announce_addr: ");
    out.append(q.udp_announce_addr.as_str());
    out.append(", bootstrap_peers: ");
    push_list(&mut out, &q.bootstrap_peers);
    out.append(", sync_interval_secs: ");
    let n = decimal_string(sync_interval_secs as u128);
    out.append(n.as_str());
    out.append(", public_key_path: ");
    out.append(q.public_key_path.as_str());
    out.append(", authorized_keys_path: ");
    out.append(q.authorized_keys_path.as_str());
    out.append(", tls_cert_path: ");
    push_opt(&mut out, &q.tls_cert_path);
    out.append(", tls_key_path: ");
    push_opt(&mut out, &q.tls_key_path);
    out.append(", tls_ca_path: ");
    push_opt(&mut out, &q.tls_ca_path);
    out.append(", tls_server_name: ");
    push_opt(&mut out, &q.tls_server_name);
    out.append(", insecure_no_tls: ");
    push_bool(&mut out, insecure_no_tls);
    out.append(", dry_run: ");
    push_bool(&mut out, dry_run);
    out.append(" }");
    out
}

fn quote_opt(o: &Option<String>) -> (r: Option<String>)
    ensures
        crate::config::opt_string(r) == quoted_opt(crate::config::opt_string(*o)),
{
    match o {
        Some(s) => Some(quote_debug(s.as_str())),
        None => None,
    }
}

fn quote_all(v: &Vec<String>) -> (r: Vec<String>)
    ensures
        crate::config::texts(r@) == Seq::new(v@.len(), |i: int| debug_quoted(v@[i]@)),
{
    let mut r: Vec<String> = Vec::new();
    let mut i: usize = 0;
    while i < v.len()
        invariant
            i <= v@.len(),
            crate::config::texts(r@) == Seq::new(i as nat, |k: int| debug_quoted(v@[k]@)),
        decreases v.len() - i,
    {
        let ghost prev = r@;
        assert(crate::config::texts(prev).len() == i);
        assert(prev.len() == i);
        let q = quote_debug(v[i].as_str());
        r.push(q);
        assert forall|k: int| 0 <= k < i + 1 implies #[trigger] crate::config::texts(r@)[k] == debug_quoted(v@[k]@) by {
            if k < i {
                assert(r@[k] == prev[k]);
                assert(crate::config::texts(prev)[k] == prev[k]@);
            }
        }
        i += 1;
        assert(crate::config::texts(r@) =~= Seq::new(i as nat, |k: int| debug_quoted(v@[k]@)));
    }
    r
}

impl AppConfig {
    /// The debug text of the configuration; the SID token never appears in it.
    pub fn debug_string(&self) -> (r: String)
        ensures
            r@ == config_debug_text(self@),
    {
        let q = QuotedFields {
            sid: quote_debug(self.sid.as_str()),
            sid_token: quote_debug(MASK),
            participant_id: quote_debug(self.participant_id.as_str()),
            http_listen_addr: quote_debug(self.http_listen_addr.as_str()),
            udp_announce_addr: quote_debug(self.udp_announce_addr.as_str()),
            bootstrap_peers: quote_all(&self.bootstrap_peers),
            public_key_path: quote_debug(self.public_key_path.as_str()),
            authorized_keys_path: quote_debug(self.authorized_keys_path.as_str()),
            tls_cert_path: quote_opt(&self.tls_cert_path),
            tls_key_path: quote_opt(&self.tls_key_path),
            tls_ca_path: quote_opt(&self.tls_ca_path),
            tls_server_name: quote_opt(&self.tls_server_name),
        };
        let r = render_debug(&q, self.sync_interval_secs, self.insecure_no_tls, self.dry_run);
        assert(crate::config::texts(q.bootstrap_peers@) == Seq::new(self@.bootstrap_peers.len(), |i: int| debug_quoted(self@.bootstrap_peers[i])));
        r
    }
}

/// The SID token does not show in the debug text: two configurations that differ only in
/// their tokens have the same debug text.
pub proof fn law_debug_masks_token(a: AppConfigView, b: AppConfigView)
    requires
        a.sid == b.sid,
        a.participant_id == b.participant_id,
        a.http_listen_addr == b.http_listen_addr,
        a.udp_announce_addr == b.udp_announce_addr,
        a.bootstrap_peers == b.bootstrap_peers,
        a.sync_interval_secs == b.sync_interval_secs,
        a.public_key_path == b.public_key_path,
        a.authorized_keys_path == b.authorized_keys_path,
        a.tls_cert_path == b.tls_cert_path,
        a.tls_key_path == b.tls_key_path,
        a.tls_ca_path == b.tls_ca_path,
        a.tls_server_name == b.tls_server_name,
        a.insecure_no_tls == b.insecure_no_tls,
        a.dry_run == b.dry_run,
    ensures
        config_debug_text(a) == config_debug_text(b),
{
    assert(Seq::new(a.bootstrap_peers.len(), |i: int| debug_quoted(a.bootstrap_peers[i]))
        == Seq::new(b.bootstrap_peers.len(), |i: int| debug_quoted(b.bootstrap_peers[i])));
}

} // verus!
