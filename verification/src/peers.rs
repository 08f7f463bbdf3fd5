//! Peers: bootstrap peer notation, listen addresses, the endpoint set of a sync cycle and the
//! daemon's sync schedule.
use vstd::prelude::*;

use crate::key_values::KeyValues;
use crate::runtime::{RuntimeError, RuntimeErrorView};
use crate::text::{
    all_digits, chars_eq_str, chars_of, decimal, decimal_string, is_trimmed, law_decimal_roundtrip,
    lemma_rsplit_once_concat, lemma_split_once_concat, lemma_trim_of_trimmed, parse_unsigned,
    parse_unsigned_vec, rsplit_once, rsplit_once_vec, same_chars, split_once, split_once_vec,
    string_of, trim, trim_vec,
};

verus! {

/// A peer to fetch a public key from.
#[derive(Debug, Clone, PartialEq, Eq)]
pub struct PeerEndpoint {
    pub participant_id: String,
    pub address: String,
    pub port: u16,
}

pub struct PeerEndpointView {
    pub participant_id: Seq<char>,
    pub address: Seq<char>,
    pub port: u16,
}

impl View for PeerEndpoint {
    type V = PeerEndpointView;

    open spec fn view(&self) -> PeerEndpointView {
        PeerEndpointView { participant_id: self.participant_id@, address: self.address@, port: self.port }
    }
}

/// The endpoint that a bootstrap peer entry names: `<participant_id>@<address>:<port>`, or
/// `<address>:<port>`, whose participant ID is then the whole trimmed entry. The port is
/// what follows the last `:`.
pub open spec fn spec_bootstrap_peer(value: Seq<char>) -> Option<PeerEndpointView> {
    let t = trim(value);
    if t.len() == 0 {
        None
    } else {
        let (participant, host_port) = match split_once(t, '@') {
            Some((p, h)) => (trim(p), trim(h)),
            None => (t, t),
        };
        match rsplit_once(host_port, ':') {
            None => None,
            Some((address, port_text)) => match parse_unsigned(trim(port_text), u16::MAX as nat) {
                None => None,
                Some(port) => Some(PeerEndpointView { participant_id: participant, address: trim(address), port: port as u16 }),
            },
        }
    }
}

/// Reads one bootstrap peer entry.
pub fn parse_bootstrap_peer(value: &str) -> (r: Option<PeerEndpoint>)
    ensures
        match r {
            Some(e) => spec_bootstrap_peer(value@) == Some(e@),
            None => spec_bootstrap_peer(value@) is None,
        },
{
    let v = chars_of(value);
    let t = trim_vec(v.as_slice());
    if t.len() == 0 {
        return None;
    }
    let (participant, host_port) = match split_once_vec(t.as_slice(), '@') {
        Some((p, h)) => (trim_vec(p.as_slice()), trim_vec(h.as_slice())),
        None => (t.clone(), t),
    };
    let (address, port_text) = match rsplit_once_vec(host_port.as_slice(), ':') {
        Some(parts) => parts,
        None => return None,
    };
    let port_chars = trim_vec(port_text.as_slice());
    let port = match parse_unsigned_vec(port_chars.as_slice(), u16::MAX as u64) {
        Some(n) => n as u16,
        None => return None,
    };
    let address = trim_vec(address.as_slice());
    Some(PeerEndpoint {
        participant_id: string_of(participant.as_slice()),
        address: string_of(address.as_slice()),
        port,
    })
}

/// The port of a listen address: the text after its last `:` as a `u16`.
pub open spec fn spec_port(address: Seq<char>) -> Option<u16> {
    match rsplit_once(address, ':') {
        Some((_, p)) => match parse_unsigned(p, u16::MAX as nat) {
            Some(n) => Some(n as u16),
            None => None,
        },
        None => None,
    }
}

/// Reads the port of a listen address.
pub fn parse_port(address: &str) -> (r: Result<u16, RuntimeError>)
    ensures
        match r {
            Ok(p) => spec_port(address@) == Some(p),
            Err(e) => spec_port(address@) is None && e@ == RuntimeErrorView::ParseListenAddress(address@),
        },
{
    let v = chars_of(address);
    match rsplit_once_vec(v.as_slice(), ':') {
        Some((_, p)) => match parse_unsigned_vec(p.as_slice(), u16::MAX as u64) {
            Some(n) => Ok(n as u16),
            None => Err(RuntimeError::ParseListenAddress(address.to_owned())),
        },
        None => Err(RuntimeError::ParseListenAddress(address.to_owned())),
    }
}

/// The address announced to peers: the host part of the listen address (before its first
/// `:`), or the participant ID when the host is a wildcard (`0.0.0.0` or `::`).
pub open spec fn spec_advertised_address(http_listen_addr: Seq<char>, participant_id: Seq<char>) -> Seq<char> {
    let host = match split_once(http_listen_addr, ':') {
        Some((h, _)) => h,
        None => http_listen_addr,
    };
    if host == "0.0.0.0"@ || host == "::"@ {
        participant_id
    } else {
        host
    }
}

pub fn advertised_address(http_listen_addr: &str, participant_id: &str) -> (r: String)
    ensures
        r@ == spec_advertised_address(http_listen_addr@, participant_id@),
{
    let v = chars_of(http_listen_addr);
    let host = match split_once_vec(v.as_slice(), ':') {
        Some((h, _)) => h,
        None => v,
    };
    if chars_eq_str(host.as_slice(), "0.0.0.0") || chars_eq_str(host.as_slice(), "::") {
        participant_id.to_owned()
    } else {
        string_of(host.as_slice())
    }
}

// ---------------------------------------------------------------------------
// The endpoints of a sync cycle
// ---------------------------------------------------------------------------

/// Endpoints by participant ID; a later endpoint for an ID replaces an earlier one.
pub open spec fn endpoint_map(es: Seq<PeerEndpointView>) -> Map<Seq<char>, PeerEndpointView>
    decreases es.len(),
{
    if es.len() == 0 {
        Map::empty()
    } else {
        endpoint_map(es.drop_last()).insert(es.last().participant_id, es.last())
    }
}

pub open spec fn endpoint_views(v: Seq<PeerEndpoint>) -> Seq<PeerEndpointView> {
    Seq::new(v.len(), |i: int| v[i]@)
}

/// The endpoints that the bootstrap entries name, in order, skipping unreadable entries.
pub open spec fn bootstrap_endpoints(peers: Seq<Seq<char>>) -> Seq<PeerEndpointView>
    decreases peers.len(),
{
    if peers.len() == 0 {
        Seq::empty()
    } else {
        let prev = bootstrap_endpoints(peers.drop_last());
        match spec_bootstrap_peer(peers.last()) {
            Some(e) => prev.push(e),
            None => prev,
        }
    }
}

pub open spec fn unique_ids(es: Seq<PeerEndpointView>) -> bool {
    forall|i: int, j: int| 0 <= i < j < es.len() ==> #[trigger] es[i].participant_id != #[trigger] es[j].participant_id
}

proof fn lemma_endpoint_map_value(es: Seq<PeerEndpointView>, i: int)
    requires
        unique_ids(es),
        0 <= i < es.len(),
    ensures
        endpoint_map(es).contains_key(es[i].participant_id),
        endpoint_map(es)[es[i].participant_id] == es[i],
    decreases es.len(),
{
    if i < es.len() - 1 {
        assert(es.drop_last()[i] == es[i]);
        assert(unique_ids(es.drop_last())) by {
            assert forall|a: int, b: int| 0 <= a < b < es.drop_last().len() implies
                #[trigger] es.drop_last()[a].participant_id != #[trigger] es.drop_last()[b].participant_id by {
                assert(es[a].participant_id != es[b].participant_id);
            }
        }
        lemma_endpoint_map_value(es.drop_last(), i);
        assert(es[i].participant_id != es[es.len() - 1].participant_id);
    }
}

proof fn lemma_endpoint_map_dom(es: Seq<PeerEndpointView>, k: Seq<char>)
    ensures
        endpoint_map(es).contains_key(k) <==> exists|i: int| 0 <= i < es.len() && #[trigger] es[i].participant_id == k,
    decreases es.len(),
{
    if es.len() > 0 {
        lemma_endpoint_map_dom(es.drop_last(), k);
        if endpoint_map(es.drop_last()).contains_key(k) {
            let i = choose|i: int| 0 <= i < es.drop_last().len() && #[trigger] es.drop_last()[i].participant_id == k;
            assert(es[i].participant_id == k);
        }
        if exists|i: int| 0 <= i < es.len() && #[trigger] es[i].participant_id == k {
            let i = choose|i: int| 0 <= i < es.len() && #[trigger] es[i].participant_id == k;
            if i < es.len() - 1 {
                assert(es.drop_last()[i].participant_id == k);
            }
        }
    }
}

proof fn lemma_endpoint_map_update(es: Seq<PeerEndpointView>, i: int, e: PeerEndpointView)
    requires
        0 <= i < es.len(),
        unique_ids(es),
        e.participant_id == es[i].participant_id,
    ensures
        endpoint_map(es.update(i, e)) == endpoint_map(es).insert(e.participant_id, e),
    decreases es.len(),
{
    let f = es.update(i, e);
    if i == es.len() - 1 {
        assert(f.drop_last() == es.drop_last());
    } else {
        assert(unique_ids(es.drop_last())) by {
            assert forall|a: int, b: int| 0 <= a < b < es.drop_last().len() implies
                #[trigger] es.drop_last()[a].participant_id != #[trigger] es.drop_last()[b].participant_id by {
                assert(es[a].participant_id != es[b].participant_id);
            }
        }
        lemma_endpoint_map_update(es.drop_last(), i, e);
        assert(f.drop_last() == es.drop_last().update(i, e));
        assert(es[i].participant_id != es.last().participant_id);
        assert(endpoint_map(f) =~= endpoint_map(es).insert(e.participant_id, e));
    }
}

/// A copy of an endpoint.
pub fn copy_endpoint(e: &PeerEndpoint) -> (r: PeerEndpoint)
    ensures
        r@ == e@,
{
    PeerEndpoint { participant_id: e.participant_id.clone(), address: e.address.clone(), port: e.port }
}

/// Equality of two texts.
fn same_text(a: &String, b: &String) -> (r: bool)
    ensures
        r == (a@ == b@),
{
    *a == *b
}

/// Adds an endpoint to a set of endpoints with unique IDs, replacing the one with its ID.
fn put_endpoint(set: &mut Vec<PeerEndpoint>, e: PeerEndpoint)
    requires
        unique_ids(endpoint_views(old(set)@)),
    ensures
        unique_ids(endpoint_views(final(set)@)),
        endpoint_map(endpoint_views(final(set)@)) == endpoint_map(endpoint_views(old(set)@)).insert(e@.participant_id, e@),
{
    let ghost before = endpoint_views(set@);
    let mut i: usize = 0;
    while i < set.len()
        invariant
            i <= set@.len(),
            before == endpoint_views(set@),
            set@ == old(set)@,
            unique_ids(before),
            forall|j: int| 0 <= j < i ==> set@[j]@.participant_id != e@.participant_id,
        decreases set.len() - i,
    {
        if same_text(&set[i].participant_id, &e.participant_id) {
            let ghost ev = e@;
            proof {
                lemma_endpoint_map_update(before, i as int, ev);
            }
            set.set(i, e);
            assert(endpoint_views(set@) =~= before.update(i as int, ev));
            assert(endpoint_map(endpoint_views(set@)) == endpoint_map(before).insert(ev.participant_id, ev));
            assert(unique_ids(endpoint_views(set@))) by {
                let f = endpoint_views(set@);
                assert forall|a: int, b: int| 0 <= a < b < f.len() implies #[trigger] f[a].participant_id
                    != #[trigger] f[b].participant_id by {
                    assert(f[a].participant_id == before[a].participant_id);
                    assert(f[b].participant_id == before[b].participant_id);
                }
            }
            return;
        }
        i += 1;
    }
    set.push(e);
    assert(endpoint_views(set@).drop_last() =~= before);
    assert(unique_ids(endpoint_views(set@))) by {
        let f = endpoint_views(set@);
        assert forall|a: int, b: int| 0 <= a < b < f.len() implies #[trigger] f[a].participant_id
            != #[trigger] f[b].participant_id by {
            assert(f[a] == set@[a]@);
            if b < before.len() {
                assert(f[b] == before[b]);
                assert(f[a] == before[a]);
            }
        }
    }
}

/// The endpoints of one sync cycle, one per participant ID: the readable bootstrap entries,
/// then the discovered peers, a later one replacing an earlier one with the same ID.
pub fn collect_endpoints(bootstrap_peers: &Vec<String>, discovered: &Vec<PeerEndpoint>) -> (r: Vec<PeerEndpoint>)
    ensures
        unique_ids(endpoint_views(r@)),
        endpoint_map(endpoint_views(r@)) == endpoint_map(
            bootstrap_endpoints(crate::config::texts(bootstrap_peers@)) + endpoint_views(discovered@),
        ),
{
    let mut set: Vec<PeerEndpoint> = Vec::new();
    let ghost peers = crate::config::texts(bootstrap_peers@);
    let mut i: usize = 0;
    assert(endpoint_views(set@) =~= Seq::<PeerEndpointView>::empty());
    while i < bootstrap_peers.len()
        invariant
            i <= bootstrap_peers@.len(),
            peers == crate::config::texts(bootstrap_peers@),
            unique_ids(endpoint_views(set@)),
            endpoint_map(endpoint_views(set@)) == endpoint_map(bootstrap_endpoints(peers.take(i as int))),
        decreases bootstrap_peers.len() - i,
    {
        proof {
            assert(peers.take(i + 1).drop_last() == peers.take(i as int));
            assert(peers.take(i + 1).last() == bootstrap_peers@[i as int]@);
        }
        let ghost prev = bootstrap_endpoints(peers.take(i as int));
        match parse_bootstrap_peer(bootstrap_peers[i].as_str()) {
            Some(e) => {
                let ghost ev = e@;
                put_endpoint(&mut set, e);
                assert(bootstrap_endpoints(peers.take(i + 1)) == prev.push(ev));
                assert(prev.push(ev).drop_last() == prev);
            },
            None => {
                assert(bootstrap_endpoints(peers.take(i + 1)) == prev);
            },
        }
        i += 1;
    }
    assert(peers.take(peers.len() as int) == peers);
    let ghost boot = bootstrap_endpoints(peers);
    let mut k: usize = 0;
    while k < discovered.len()
        invariant
            k <= discovered@.len(),
            boot == bootstrap_endpoints(peers),
            unique_ids(endpoint_views(set@)),
            endpoint_map(endpoint_views(set@)) == endpoint_map(boot + endpoint_views(discovered@).take(k as int)),
        decreases discovered.len() - k,
    {
        let ghost all = boot + endpoint_views(discovered@).take(k + 1);
        proof {
            assert(all.drop_last() == boot + endpoint_views(discovered@).take(k as int));
            assert(all.last() == discovered@[k as int]@);
        }
        put_endpoint(&mut set, copy_endpoint(&discovered[k]));
        assert(endpoint_map(all) == endpoint_map(all.drop_last()).insert(all.last().participant_id, all.last()));
        k += 1;
    }
    assert(endpoint_views(discovered@).take(discovered@.len() as int) == endpoint_views(discovered@));
    set
}

/// The endpoints to fetch keys from: all but the local participant's, in order.
pub fn sync_targets(endpoints: &Vec<PeerEndpoint>, local_participant_id: &String) -> (r: Vec<PeerEndpoint>)
    ensures
        endpoint_views(r@) == endpoint_views(endpoints@).filter(
            |e: PeerEndpointView| e.participant_id != local_participant_id@,
        ),
{
    let ghost pred = |e: PeerEndpointView| e.participant_id != local_participant_id@;
    let mut r: Vec<PeerEndpoint> = Vec::new();
    let mut i: usize = 0;
    while i < endpoints.len()
        invariant
            i <= endpoints@.len(),
            endpoint_views(r@) == endpoint_views(endpoints@).take(i as int).filter(pred),
            pred == (|e: PeerEndpointView| e.participant_id != local_participant_id@),
        decreases endpoints.len() - i,
    {
        let ghost prefix = endpoint_views(endpoints@).take(i as int);
        let ghost next = endpoint_views(endpoints@).take(i + 1);
        proof {
            assert(next.drop_last() == prefix);
            assert(next.last() == endpoints@[i as int]@);
        }
        if !same_text(&endpoints[i].participant_id, local_participant_id) {
            r.push(copy_endpoint(&endpoints[i]));
            proof {
                reveal_with_fuel(Seq::<_>::filter, 1);
                assert(next.filter(pred) == prefix.filter(pred).push(next.last()));
            }
            assert(endpoint_views(r@) =~= prefix.filter(pred).push(endpoints@[i as int]@));
        } else {
            proof {
                reveal_with_fuel(Seq::<_>::filter, 1);
                assert(next.filter(pred) == prefix.filter(pred));
            }
        }
        i += 1;
    }
    assert(endpoint_views(endpoints@).take(endpoints@.len() as int) == endpoint_views(endpoints@));
    r
}

// ---------------------------------------------------------------------------
// Schedule and announcements
// ---------------------------------------------------------------------------

/// Whether a daemon tick runs a sync: when its time has come or discovery asked for one.
pub fn sync_due(now: u64, next_sync_at: u64, discovery_trigger: bool) -> (r: bool)
    ensures
        r == (now >= next_sync_at || discovery_trigger),
{
    now >= next_sync_at || discovery_trigger
}

/// When the next sync is due after one at `now`: at least one second later.
pub fn next_sync_time(now: u64, sync_interval_secs: u64) -> (r: u64)
    requires
        now + (if sync_interval_secs > 1 { sync_interval_secs } else { 1 }) <= u64::MAX,
    ensures
        r == now + (if sync_interval_secs > 1 { sync_interval_secs } else { 1 }),
        r > now,
{
    let step = if sync_interval_secs > 1 {
        sync_interval_secs
    } else {
        1
    };
    now + step
}

/// Whether the fetched keys are written to `authorized_keys`: after a successful sync,
/// unless in dry-run mode.
pub fn should_write_keys(sync_succeeded: bool, dry_run: bool) -> (r: bool)
    ensures
        r == (sync_succeeded && !dry_run),
{
    sync_succeeded && !dry_run
}

/// The UDP broadcast target of announcements.
pub fn broadcast_target(udp_port: u16) -> (r: String)
    ensures
        r@ == "255.255.255.255:"@ + decimal(udp_port as nat),
{
    let mut r = "255.255.255.255:".to_owned();
    let digits = decimal_string(udp_port as u128);
    r.append(digits.as_str());
    r
}

/// A nonce made of the current time in nanoseconds.
pub fn format_nonce(nanos: u128) -> (r: String)
    ensures
        r@ == "n-"@ + decimal(nanos as nat),
{
    let mut r = "n-".to_owned();
    let digits = decimal_string(nanos);
    r.append(digits.as_str());
    r
}


/// Records the outcome of fetching one participant's key: a fetched key is stored under
/// the participant ID (replacing an earlier one); a failed request leaves the keys as they
/// were.
pub fn record_fetched_key(
    managed_keys: &mut KeyValues,
    participant_id: &String,
    fetched: Result<String, RuntimeError>,
)
    ensures
        match fetched {
            Ok(key) => final(managed_keys)@ == old(managed_keys)@.insert(participant_id@, key@),
            Err(_) => final(managed_keys)@ == old(managed_keys)@,
        },
{
    match fetched {
        Ok(key) => managed_keys.insert(participant_id.clone(), key),
        Err(_) => {},
    }
}

// ---------------------------------------------------------------------------
// Laws
// ---------------------------------------------------------------------------

/// An entry without `@` is read as `<address>:<port>` and its participant ID falls back to
/// the whole trimmed entry; with `@`, the ID is the trimmed text before the first `@`.
pub proof fn law_bootstrap_participant_id(value: Seq<char>)
    ensures
        spec_bootstrap_peer(value) matches Some(e) ==> e.participant_id == (match split_once(trim(value), '@') {
            Some((p, _)) => trim(p),
            None => trim(value),
        }),
{
}

/// The decimal text of a port: one or more ASCII digits, so trimmed, free of `:` and `@`,
/// and read back as the port.
proof fn lemma_port_text(port: u16)
    ensures
        decimal(port as nat).len() > 0,
        is_trimmed(decimal(port as nat)),
        trim(decimal(port as nat)) == decimal(port as nat),
        !decimal(port as nat).contains(':'),
        !decimal(port as nat).contains('@'),
        parse_unsigned(decimal(port as nat), u16::MAX as nat) == Some(port as nat),
{
    let d = decimal(port as nat);
    law_decimal_roundtrip(port as nat, u16::MAX as nat);
    assert(all_digits(d));
    assert(crate::text::is_digit(d[0]));
    assert(crate::text::is_digit(d[d.len() - 1]));
    lemma_trim_of_trimmed(d);
    assert(!d.contains(':')) by {
        if d.contains(':') {
            let i = choose|i: int| 0 <= i < d.len() && d[i] == ':';
            assert(crate::text::is_digit(d[i]));
        }
    }
    assert(!d.contains('@')) by {
        if d.contains('@') {
            let i = choose|i: int| 0 <= i < d.len() && d[i] == '@';
            assert(crate::text::is_digit(d[i]));
        }
    }
}

/// `<address>:<port>` with a trimmed address: trimmed, and split at its last `:` into the
/// address and the port's digits.
proof fn lemma_host_port(address: Seq<char>, port: u16)
    requires
        is_trimmed(address),
    ensures
        is_trimmed(address.push(':') + decimal(port as nat)),
        trim(address.push(':') + decimal(port as nat)) == address.push(':') + decimal(port as nat),
        rsplit_once(address.push(':') + decimal(port as nat), ':') == Some((address, decimal(port as nat))),
{
    let d = decimal(port as nat);
    let hp = address.push(':') + d;
    lemma_port_text(port);
    if address.len() > 0 {
        assert(hp[0] == address[0]);
    } else {
        assert(hp[0] == ':');
    }
    assert(hp.last() == d.last());
    assert(d.last() == d[d.len() - 1]);
    lemma_trim_of_trimmed(hp);
    lemma_rsplit_once_concat(address, ':', d);
}

/// An entry `<participant_id>@<address>:<port>` reads as exactly that participant ID,
/// address and port, for every `u16` port, when the ID holds no `@` and neither the ID nor
/// the address has surrounding whitespace.
pub proof fn law_bootstrap_peer_fields(participant: Seq<char>, address: Seq<char>, port: u16)
    requires
        is_trimmed(participant),
        !participant.contains('@'),
        is_trimmed(address),
    ensures
        spec_bootstrap_peer(participant + "@"@ + address + ":"@ + decimal(port as nat)) == Some(
            PeerEndpointView { participant_id: participant, address: address, port: port },
        ),
{
    reveal_strlit("@");
    reveal_strlit(":");
    let d = decimal(port as nat);
    let hp = address.push(':') + d;
    let v = participant.push('@') + hp;
    assert(participant + "@"@ + address + ":"@ + d =~= v);
    lemma_port_text(port);
    lemma_host_port(address, port);
    lemma_trim_of_trimmed(participant);
    lemma_trim_of_trimmed(address);
    if participant.len() > 0 {
        assert(v[0] == participant[0]);
    } else {
        assert(v[0] == '@');
    }
    assert(v.last() == hp.last());
    lemma_trim_of_trimmed(v);
    lemma_split_once_concat(participant, '@', hp);
}

/// An entry `<address>:<port>` without `@` reads as that address and port, for every `u16`
/// port, with the whole entry as participant ID, when the address has no surrounding
/// whitespace.
pub proof fn law_bootstrap_address_fields(address: Seq<char>, port: u16)
    requires
        is_trimmed(address),
        !address.contains('@'),
    ensures
        spec_bootstrap_peer(address + ":"@ + decimal(port as nat)) == Some(
            PeerEndpointView { participant_id: address + ":"@ + decimal(port as nat), address: address, port: port },
        ),
{
    reveal_strlit(":");
    let d = decimal(port as nat);
    let v = address.push(':') + d;
    assert(address + ":"@ + d =~= v);
    lemma_port_text(port);
    lemma_host_port(address, port);
    lemma_trim_of_trimmed(address);
    assert(!v.contains('@')) by {
        if v.contains('@') {
            let i = choose|i: int| 0 <= i < v.len() && v[i] == '@';
            if i < address.len() {
                assert(address[i] == '@');
            } else if i > address.len() {
                assert(d[i - address.len() - 1] == '@');
            }
        }
    }
}

/// The port of a listen address `<host>:<port>` is the port, for every `u16` and any host
/// (which may itself hold `:`).
pub proof fn law_listen_port(host: Seq<char>, port: u16)
    ensures
        spec_port(host + ":"@ + decimal(port as nat)) == Some(port),
{
    reveal_strlit(":");
    let d = decimal(port as nat);
    assert(host + ":"@ + d =~= host.push(':') + d);
    lemma_port_text(port);
    lemma_rsplit_once_concat(host, ':', d);
}

/// The advertised address of a listen address `<host>:<rest>` whose host holds no `:` is
/// the host, unless the host is the wildcard `0.0.0.0`, which advertises the participant ID.
pub proof fn law_advertised_host(host: Seq<char>, rest: Seq<char>, participant_id: Seq<char>)
    requires
        !host.contains(':'),
    ensures
        spec_advertised_address(host + ":"@ + rest, participant_id) == (if host == "0.0.0.0"@ {
            participant_id
        } else {
            host
        }),
{
    reveal_strlit(":");
    reveal_strlit("::");
    assert(host + ":"@ + rest =~= host.push(':') + rest);
    lemma_split_once_concat(host, ':', rest);
    assert("::"@[0] == ':');
    if host == "::"@ {
        assert(host[0] == ':');
    }
}

/// Within one sync cycle, a discovered peer replaces a bootstrap entry (or an earlier
/// discovery) with the same participant ID.
pub proof fn law_later_endpoint_wins(earlier: Seq<PeerEndpointView>, later: PeerEndpointView)
    ensures
        endpoint_map(earlier.push(later)).contains_key(later.participant_id),
        endpoint_map(earlier.push(later))[later.participant_id] == later,
{
    assert(earlier.push(later).drop_last() == earlier);
}

} // verus!
