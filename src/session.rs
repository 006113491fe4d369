//! Connection planning: the address to dial and the session preferences to
//! apply, worked out from the host's configured options.

use vstd::prelude::*;
use crate::text::{chars_of, string_of, join_with, concat_chars};

verus! {

/// The port used when the configuration names none.
pub const DEFAULT_PORT: u16 = 22;

/// The decimal digits of `n`.
pub open spec fn decimal_text(n: nat) -> Seq<char>
    decreases n,
{
    if n < 10 {
        seq![((n + 48) as u8) as char]
    } else {
        decimal_text(n / 10).push((((n % 10) + 48) as u8) as char)
    }
}

/// The decimal digits of `n`.
pub fn port_text(n: u16) -> (r: Vec<char>)
    ensures
        r@ == decimal_text(n as nat),
    decreases n,
{
    if n < 10 {
        let mut r: Vec<char> = Vec::new();
        r.push(((n + 48) as u8) as char);
        r
    } else {
        let mut r = port_text(n / 10);
        r.push((((n % 10) + 48) as u8) as char);
        r
    }
}

/// The host options that a connection is planned from.
pub struct HostOptions {
    pub host_name: Option<String>,
    pub port: Option<u16>,
    pub compression: Option<bool>,
    pub tcp_keep_alive: Option<bool>,
    pub server_alive_interval_secs: Option<u64>,
    pub kex_algorithms: Option<Vec<String>>,
    pub host_key_algorithms: Option<Vec<String>>,
    pub ciphers: Option<Vec<String>>,
    pub mac: Option<Vec<String>>,
}

/// Where to connect: `host:port`, and whether a configured port was passed over
/// because the host already names one.
pub struct HostAddress {
    pub address: String,
    pub port_ignored: bool,
}

/// The host to dial: the configured host name, else the alias given.
pub open spec fn dial_host(hostname: Seq<char>, host_name: Option<String>) -> Seq<char> {
    match host_name {
        Some(h) => h@,
        None => hostname,
    }
}

/// The address to dial: a host that holds `:` stands as it is; any other gets
/// `:` and the configured port, or the default one.
pub open spec fn dial_address(hostname: Seq<char>, host_name: Option<String>, port: Option<u16>) -> Seq<char> {
    let host = dial_host(hostname, host_name);
    if host.contains(':') {
        host
    } else {
        host.push(':') + decimal_text(
            match port {
                Some(p) => p as nat,
                None => DEFAULT_PORT as nat,
            },
        )
    }
}

/// The address to dial for alias `hostname` under `options`.
pub fn host_address(hostname: &str, options: &HostOptions) -> (r: HostAddress)
    ensures
        r.address@ == dial_address(hostname@, options.host_name, options.port),
        r.port_ignored == (dial_host(hostname@, options.host_name).contains(':') && options.port is Some),
{
    let host = match &options.host_name {
        Some(h) => chars_of(h.as_str()),
        None => chars_of(hostname),
    };
    let mut has_colon = false;
    let mut i: usize = 0;
    while i < host.len()
        invariant
            i <= host@.len(),
            has_colon == exists|j: int| 0 <= j < i && host@[j] == ':',
        decreases host.len() - i,
    {
        if host[i] == ':' {
            has_colon = true;
        }
        i += 1;
    }
    assert(has_colon == host@.contains(':'));
    if has_colon {
        HostAddress { address: string_of(&host), port_ignored: options.port.is_some() }
    } else {
        let port = match options.port {
            Some(p) => p,
            None => DEFAULT_PORT,
        };
        let mut head = host;
        head.push(':');
        let digits = port_text(port);
        HostAddress { address: string_of(&concat_chars(&head, &digits)), port_ignored: false }
    }
}

/// The algorithm lists a session can be given a preference for.
#[derive(Clone, Copy, Debug, PartialEq, Eq, Structural)]
pub enum MethodKind {
    Kex,
    HostKey,
    CryptCs,
    CryptSc,
    MacCs,
    MacSc,
}

/// What to set on a new session: compression, keep-alive interval, and algorithm
/// preferences in the order they are applied.
pub struct SessionSettings {
    pub compress: Option<bool>,
    pub keepalive_secs: Option<u32>,
    pub method_prefs: Vec<(MethodKind, String)>,
}

pub open spec fn texts_of(v: Seq<String>) -> Seq<Seq<char>> {
    v.map_values(|s: String| s@)
}

/// The preferences that one configured list gives: one per kind, each the list
/// joined with commas.
pub open spec fn prefs_for(list: Option<Vec<String>>, kinds: Seq<MethodKind>) -> Seq<(MethodKind, Seq<char>)> {
    match list {
        Some(v) => kinds.map_values(|k: MethodKind| (k, join_with(texts_of(v@), ','))),
        None => Seq::empty(),
    }
}

/// Every algorithm preference `options` asks for, in the order they are applied:
/// key exchange, host key, ciphers (both directions), MACs (both directions).
pub open spec fn method_preferences(options: HostOptions) -> Seq<(MethodKind, Seq<char>)> {
    prefs_for(options.kex_algorithms, seq![MethodKind::Kex])
        + prefs_for(options.host_key_algorithms, seq![MethodKind::HostKey])
        + prefs_for(options.ciphers, seq![MethodKind::CryptCs, MethodKind::CryptSc])
        + prefs_for(options.mac, seq![MethodKind::MacCs, MethodKind::MacSc])
}

pub open spec fn prefs_view(v: Seq<(MethodKind, String)>) -> Seq<(MethodKind, Seq<char>)> {
    v.map_values(|p: (MethodKind, String)| (p.0, p.1@))
}

/// `list` joined with commas.
pub fn join_commas(list: &Vec<String>) -> (r: String)
    ensures
        r@ == join_with(texts_of(list@), ','),
{
    let mut out: Vec<char> = Vec::new();
    let mut i: usize = 0;
    while i < list.len()
        invariant
            i <= list@.len(),
            out@ == join_with(texts_of(list@).subrange(0, i as int), ','),
        decreases list.len() - i,
    {
        let piece = chars_of(list[i].as_str());
        let ghost pre = texts_of(list@).subrange(0, i as int);
        let ghost now = texts_of(list@).subrange(0, i + 1);
        assert(now.drop_last() =~= pre);
        if i > 0 {
            out.push(',');
        }
        out = concat_chars(&out, &piece);
        i += 1;
    }
    assert(texts_of(list@).subrange(0, i as int) =~= texts_of(list@));
    string_of(&out)
}

fn push_prefs(out: &mut Vec<(MethodKind, String)>, list: &Option<Vec<String>>, first: MethodKind, second: Option<MethodKind>)
    ensures
        prefs_view(final(out)@) == prefs_view(old(out)@) + prefs_for(
            *list,
            match second {
                Some(k) => seq![first, k],
                None => seq![first],
            },
        ),
{
    let ghost before = prefs_view(out@);
    match list {
        Some(v) => {
            let joined = join_commas(v);
            out.push((first, joined.clone()));
            match second {
                Some(k) => {
                    out.push((k, joined));
                    assert(prefs_view(out@) =~= before + prefs_for(*list, seq![first, k]));
                },
                None => {
                    assert(prefs_view(out@) =~= before + prefs_for(*list, seq![first]));
                },
            }
        },
        None => {
            assert(prefs_view(out@) =~= before + Seq::<(MethodKind, Seq<char>)>::empty());
        },
    }
}

/// What to set on a new session for `options`: compression as configured; a
/// keep-alive when TCP keep-alive is on and an interval is set (its seconds cut to
/// 32 bits); and the algorithm preferences of `method_preferences`.
pub fn session_settings(options: &HostOptions) -> (r: SessionSettings)
    ensures
        r.compress == options.compression,
        r.keepalive_secs == match (options.tcp_keep_alive, options.server_alive_interval_secs) {
            (Some(true), Some(s)) => Some(s as u32),
            _ => None,
        },
        prefs_view(r.method_prefs@) == method_preferences(*options),
{
    let keepalive_secs = match (options.tcp_keep_alive, options.server_alive_interval_secs) {
        (Some(true), Some(s)) => Some(#[verifier::truncate] (s as u32)),
        _ => None,
    };
    let mut prefs: Vec<(MethodKind, String)> = Vec::new();
    push_prefs(&mut prefs, &options.kex_algorithms, MethodKind::Kex, None);
    push_prefs(&mut prefs, &options.host_key_algorithms, MethodKind::HostKey, None);
    push_prefs(&mut prefs, &options.ciphers, MethodKind::CryptCs, Some(MethodKind::CryptSc));
    push_prefs(&mut prefs, &options.mac, MethodKind::MacCs, Some(MethodKind::MacSc));
    assert(prefs_view(prefs@) =~= method_preferences(*options));
    SessionSettings { compress: options.compression, keepalive_secs, method_prefs: prefs }
}

} // verus!
