//! Typed server settings, parsed from the process environment.
//!
//! The process hands the raw environment over as key/value pairs; keys are
//! matched case-insensitively (ASCII). Every field is required: a missing key
//! or a value that does not parse is a fatal startup error, reported before
//! any socket is bound. The allow-lists stay in their raw comma-separated
//! form here and are interpreted by the accessors below: pieces are split at
//! commas, trimmed of ASCII whitespace, and — for ports — kept when they
//! read as a decimal port number.

use vstd::prelude::*;

use crate::errors::ConfigError;
use crate::policy::AccessPolicy;
use crate::text::{dec_rep, lower_seq, parse_dec, split_commas, trim_spec};

verus! {

/// Gateway settings, one field per required configuration key.
#[derive(Debug)]
pub struct ServerConfig {
    pub server_host: String,
    pub server_port: u16,
    pub web_interface: String,
    pub web_port: u16,
    pub ssh_authorized_keys_path: String,
    pub ssh_server_key_path: String,
    pub allowed_ports: String,
    pub max_connections: u32,
    pub session_timeout: u64,
    pub allowed_users: String,
    pub require_pubkey_auth: bool,
}

/// Mathematical content of a [`ServerConfig`].
#[verifier::ext_equal]
pub ghost struct ServerConfigView {
    pub server_host: Seq<char>,
    pub server_port: u16,
    pub web_interface: Seq<char>,
    pub web_port: u16,
    pub ssh_authorized_keys_path: Seq<char>,
    pub ssh_server_key_path: Seq<char>,
    pub allowed_ports: Seq<char>,
    pub max_connections: u32,
    pub session_timeout: u64,
    pub allowed_users: Seq<char>,
    pub require_pubkey_auth: bool,
}

impl View for ServerConfig {
    type V = ServerConfigView;

    open spec fn view(&self) -> ServerConfigView {
        ServerConfigView {
            server_host: self.server_host@,
            server_port: self.server_port,
            web_interface: self.web_interface@,
            web_port: self.web_port,
            ssh_authorized_keys_path: self.ssh_authorized_keys_path@,
            ssh_server_key_path: self.ssh_server_key_path@,
            allowed_ports: self.allowed_ports@,
            max_connections: self.max_connections,
            session_timeout: self.session_timeout,
            allowed_users: self.allowed_users@,
            require_pubkey_auth: self.require_pubkey_auth,
        }
    }
}

/// The value under the first pair whose key, ASCII-lowercased, is `key`.
pub open spec fn lookup_env(env: Seq<(Seq<char>, Seq<char>)>, key: Seq<char>) -> Option<Seq<char>>
    decreases env.len(),
{
    if env.len() == 0 {
        None
    } else if lower_seq(env.first().0) == key {
        Some(env.first().1)
    } else {
        lookup_env(env.drop_first(), key)
    }
}

/// The boolean denoted by `v`: exactly `true` or `false`.
pub open spec fn parse_bool(v: Seq<char>) -> Option<bool> {
    if v == "true"@ {
        Some(true)
    } else if v == "false"@ {
        Some(false)
    } else {
        None
    }
}

/// Whether every required key is present in the environment.
pub open spec fn all_keys_present(env: Seq<(Seq<char>, Seq<char>)>) -> bool {
    &&& lookup_env(env, "server_host"@) is Some
    &&& lookup_env(env, "server_port"@) is Some
    &&& lookup_env(env, "web_interface"@) is Some
    &&& lookup_env(env, "web_port"@) is Some
    &&& lookup_env(env, "ssh_authorized_keys_path"@) is Some
    &&& lookup_env(env, "ssh_server_key_path"@) is Some
    &&& lookup_env(env, "allowed_ports"@) is Some
    &&& lookup_env(env, "max_connections"@) is Some
    &&& lookup_env(env, "session_timeout"@) is Some
    &&& lookup_env(env, "allowed_users"@) is Some
    &&& lookup_env(env, "require_pubkey_auth"@) is Some
}

/// Whether every typed value parses (assuming all keys are present).
pub open spec fn all_values_parse(env: Seq<(Seq<char>, Seq<char>)>) -> bool {
    &&& parse_dec(lookup_env(env, "server_port"@).unwrap(), 65535) is Some
    &&& parse_dec(lookup_env(env, "web_port"@).unwrap(), 65535) is Some
    &&& parse_dec(lookup_env(env, "max_connections"@).unwrap(), 4294967295) is Some
    &&& parse_dec(lookup_env(env, "session_timeout"@).unwrap(), 18446744073709551615) is Some
    &&& parse_bool(lookup_env(env, "require_pubkey_auth"@).unwrap()) is Some
}

/// The settings denoted by a complete, well-formed environment.
pub open spec fn config_of(env: Seq<(Seq<char>, Seq<char>)>) -> ServerConfigView {
    ServerConfigView {
        server_host: lookup_env(env, "server_host"@).unwrap(),
        server_port: parse_dec(lookup_env(env, "server_port"@).unwrap(), 65535).unwrap() as u16,
        web_interface: lookup_env(env, "web_interface"@).unwrap(),
        web_port: parse_dec(lookup_env(env, "web_port"@).unwrap(), 65535).unwrap() as u16,
        ssh_authorized_keys_path: lookup_env(env, "ssh_authorized_keys_path"@).unwrap(),
        ssh_server_key_path: lookup_env(env, "ssh_server_key_path"@).unwrap(),
        allowed_ports: lookup_env(env, "allowed_ports"@).unwrap(),
        max_connections: parse_dec(
            lookup_env(env, "max_connections"@).unwrap(),
            4294967295,
        ).unwrap() as u32,
        session_timeout: parse_dec(
            lookup_env(env, "session_timeout"@).unwrap(),
            18446744073709551615,
        ).unwrap() as u64,
        allowed_users: lookup_env(env, "allowed_users"@).unwrap(),
        require_pubkey_auth: parse_bool(lookup_env(env, "require_pubkey_auth"@).unwrap()).unwrap(),
    }
}

/// What loading the configuration from an environment yields: the settings,
/// or the fatal error — a missing key, else a malformed value.
pub open spec fn from_env_spec(env: Seq<(Seq<char>, Seq<char>)>) -> Result<
    ServerConfigView,
    ConfigError,
> {
    if !all_keys_present(env) {
        Err(ConfigError::MissingKey)
    } else if !all_values_parse(env) {
        Err(ConfigError::MalformedValue)
    } else {
        Ok(config_of(env))
    }
}

/// The ports named by the raw allow-list: values of pieces that, trimmed,
/// read as a decimal port number; other pieces are ignored.
pub open spec fn allowed_ports_spec(raw: Seq<char>) -> Set<u16> {
    Set::new(
        |p: u16|
            exists|i: int|
                0 <= i < split_commas(raw).len() && parse_dec(
                    trim_spec(#[trigger] split_commas(raw)[i]),
                    65535,
                ) == Some(p as nat),
    )
}

/// Whether one of the first `j` pieces of `raw`, trimmed, reads as `u`.
pub open spec fn user_in_prefix(raw: Seq<char>, j: int, u: Seq<char>) -> bool {
    exists|i: int| 0 <= i < j && trim_spec(#[trigger] split_commas(raw)[i]) == u
}

/// The usernames named by the raw allow-list: every piece, trimmed.
pub open spec fn allowed_users_spec(raw: Seq<char>) -> Set<Seq<char>> {
    Set::new(|u: Seq<char>| user_in_prefix(raw, split_commas(raw).len() as int, u))
}

/// `host:port`.
pub open spec fn bind_addr(host: Seq<char>, port: u16) -> Seq<char> {
    host + seq![':'] + dec_rep(port as nat)
}

/// The value under `key` (matched case-insensitively), if any.
fn lookup(env: &Vec<(String, String)>, key: &str) -> (r: Option<String>)
    ensures
        match r {
            Some(v) => lookup_env(env.deep_view(), key@) == Some(v@),
            None => lookup_env(env.deep_view(), key@) is None,
        },
{
    let n = env.len();
    let mut i: usize = 0;
    proof {
        assert(env.deep_view().skip(0) =~= env.deep_view());
    }
    while i < n
        invariant
            i <= n,
            n == env@.len(),
            lookup_env(env.deep_view(), key@) == lookup_env(
                env.deep_view().skip(i as int),
                key@,
            ),
        decreases n - i,
    {
        let ghost rest = env.deep_view().skip(i as int);
        proof {
            assert(rest.first() == env.deep_view()[i as int]);
            assert(rest.drop_first() =~= env.deep_view().skip(i + 1));
        }
        if crate::text::matches_key(env[i].0.as_str(), key) {
            return Some(env[i].1.clone());
        }
        i = i + 1;
    }
    proof {
        assert(env.deep_view().skip(n as int) =~= Seq::<(Seq<char>, Seq<char>)>::empty());
    }
    None
}

/// The boolean denoted by `s`: exactly `true` or `false`.
fn parse_bool_exec(s: &str) -> (r: Option<bool>)
    ensures
        match r {
            Some(b) => parse_bool(s@) == Some(b),
            None => parse_bool(s@) is None,
        },
{
    if crate::text::str_eq(s, "true") {
        Some(true)
    } else if crate::text::str_eq(s, "false") {
        Some(false)
    } else {
        None
    }
}

/// Whether `v` already holds `p`.
fn vec_contains_u16(v: &Vec<u16>, p: u16) -> (r: bool)
    ensures
        r == v@.contains(p),
{
    let n = v.len();
    let mut i: usize = 0;
    while i < n
        invariant
            i <= n,
            n == v@.len(),
            forall|j: int| 0 <= j < i ==> v@[j] != p,
        decreases n - i,
    {
        if v[i] == p {
            return true;
        }
        i = i + 1;
    }
    false
}

/// Whether `v` already holds a string reading as `s`.
fn vec_contains_str(v: &Vec<String>, s: &str) -> (r: bool)
    ensures
        r == (exists|j: int| 0 <= j < v@.len() && #[trigger] v@[j]@ == s@),
{
    let n = v.len();
    let mut i: usize = 0;
    while i < n
        invariant
            i <= n,
            n == v@.len(),
            forall|j: int| 0 <= j < i ==> #[trigger] v@[j]@ != s@,
        decreases n - i,
    {
        if crate::text::str_eq(v[i].as_str(), s) {
            return true;
        }
        i = i + 1;
    }
    false
}

impl ServerConfig {
    /// Load the settings from the given environment pairs. Missing keys and
    /// malformed values are fatal: the caller must not proceed to serve.
    pub fn from_env(env: &Vec<(String, String)>) -> (r: Result<ServerConfig, ConfigError>)
        ensures
            match r {
                Ok(c) => from_env_spec(env.deep_view()) == Ok::<ServerConfigView, ConfigError>(c@),
                Err(e) => from_env_spec(env.deep_view()) == Err::<ServerConfigView, ConfigError>(
                    e,
                ),
            },
    {
        let server_host = lookup(env, "server_host");
        let server_port = lookup(env, "server_port");
        let web_interface = lookup(env, "web_interface");
        let web_port = lookup(env, "web_port");
        let ssh_authorized_keys_path = lookup(env, "ssh_authorized_keys_path");
        let ssh_server_key_path = lookup(env, "ssh_server_key_path");
        let allowed_ports = lookup(env, "allowed_ports");
        let max_connections = lookup(env, "max_connections");
        let session_timeout = lookup(env, "session_timeout");
        let allowed_users = lookup(env, "allowed_users");
        let require_pubkey_auth = lookup(env, "require_pubkey_auth");
        match (
            server_host,
            server_port,
            web_interface,
            web_port,
            ssh_authorized_keys_path,
            ssh_server_key_path,
            allowed_ports,
            max_connections,
            session_timeout,
            allowed_users,
            require_pubkey_auth,
        ) {
            (
                Some(server_host),
                Some(server_port),
                Some(web_interface),
                Some(web_port),
                Some(ssh_authorized_keys_path),
                Some(ssh_server_key_path),
                Some(allowed_ports),
                Some(max_connections),
                Some(session_timeout),
                Some(allowed_users),
                Some(require_pubkey_auth),
            ) => {
                let sp = crate::text::parse_bounded(server_port.as_str(), 65535);
                let wp = crate::text::parse_bounded(web_port.as_str(), 65535);
                let mc = crate::text::parse_bounded(max_connections.as_str(), 4294967295);
                let st = crate::text::parse_bounded(
                    session_timeout.as_str(),
                    18446744073709551615,
                );
                let rp = parse_bool_exec(require_pubkey_auth.as_str());
                match (sp, wp, mc, st, rp) {
                    (Some(sp), Some(wp), Some(mc), Some(st), Some(rp)) => {
                        let c = ServerConfig {
                            server_host,
                            server_port: sp as u16,
                            web_interface,
                            web_port: wp as u16,
                            ssh_authorized_keys_path,
                            ssh_server_key_path,
                            allowed_ports,
                            max_connections: mc as u32,
                            session_timeout: st,
                            allowed_users,
                            require_pubkey_auth: rp,
                        };
                        proof {
                            assert(c@ =~= config_of(env.deep_view()));
                        }
                        Ok(c)
                    },
                    _ => Err(ConfigError::MalformedValue),
                }
            },
            _ => Err(ConfigError::MissingKey),
        }
    }

    /// The set of ports tunnels may bind: the raw allow-list split at commas,
    /// each piece trimmed, the pieces reading as port numbers kept, without
    /// duplicates.
    pub fn get_allowed_ports(&self) -> (r: Vec<u16>)
        ensures
            forall|p: u16|
                #[trigger] r@.contains(p) == allowed_ports_spec(self.allowed_ports@).contains(p),
            r@.no_duplicates(),
    {
        let ghost raw = self.allowed_ports@;
        let pieces = crate::text::split_commas_exec(self.allowed_ports.as_str());
        let n = pieces.len();
        let mut r: Vec<u16> = Vec::new();
        let mut j: usize = 0;
        while j < n
            invariant
                j <= n,
                n == pieces@.len(),
                pieces@.map_values(|x: String| x@) == split_commas(raw),
                r@.no_duplicates(),
                forall|p: u16|
                    #[trigger] r@.contains(p) <==> exists|i: int|
                        0 <= i < j && parse_dec(
                            trim_spec(#[trigger] split_commas(raw)[i]),
                            65535,
                        ) == Some(p as nat),
            decreases n - j,
        {
            proof {
                assert(pieces@[j as int]@ == split_commas(raw)[j as int]);
            }
            let t = crate::text::trim(pieces[j].as_str());
            match crate::text::parse_bounded(t, 65535) {
                Some(v) => {
                    let p = v as u16;
                    assert(parse_dec(trim_spec(split_commas(raw)[j as int]), 65535) == Some(
                        p as nat,
                    ));
                    if !vec_contains_u16(&r, p) {
                        let ghost r0 = r@;
                        r.push(p);
                        proof {
                            assert forall|q: u16| #[trigger] r@.contains(q) implies exists|i: int|
                                0 <= i < j + 1 && parse_dec(
                                    trim_spec(#[trigger] split_commas(raw)[i]),
                                    65535,
                                ) == Some(q as nat) by {
                                let k = choose|k: int| 0 <= k < r@.len() && r@[k] == q;
                                if k < r0.len() {
                                    assert(r0[k] == q);
                                    assert(r0.contains(q));
                                } else {
                                    assert(q == p);
                                }
                            }
                            assert forall|q: u16|
                                (exists|i: int|
                                    0 <= i < j + 1 && parse_dec(
                                        trim_spec(#[trigger] split_commas(raw)[i]),
                                        65535,
                                    ) == Some(q as nat)) implies #[trigger] r@.contains(q) by {
                                let i = choose|i: int|
                                    0 <= i < j + 1 && parse_dec(
                                        trim_spec(split_commas(raw)[i]),
                                        65535,
                                    ) == Some(q as nat);
                                if i < j {
                                    assert(r0.contains(q));
                                    let k = choose|k: int| 0 <= k < r0.len() && r0[k] == q;
                                    assert(r@[k] == q);
                                } else {
                                    assert(q as nat == p as nat);
                                    assert(r@[r0.len() as int] == q);
                                }
                            }
                        }
                    } else {
                        proof {
                            assert forall|q: u16|
                                (exists|i: int|
                                    0 <= i < j + 1 && parse_dec(
                                        trim_spec(#[trigger] split_commas(raw)[i]),
                                        65535,
                                    ) == Some(q as nat)) implies #[trigger] r@.contains(q) by {
                                let i = choose|i: int|
                                    0 <= i < j + 1 && parse_dec(
                                        trim_spec(split_commas(raw)[i]),
                                        65535,
                                    ) == Some(q as nat);
                                if i == j {
                                    assert(q as nat == p as nat);
                                    assert(q == p);
                                }
                            }
                        }
                    }
                },
                None => {
                    proof {
                        assert(parse_dec(trim_spec(split_commas(raw)[j as int]), 65535) is None);
                    }
                },
            }
            j = j + 1;
        }
        proof {
            assert(forall|p: u16|
                #[trigger] r@.contains(p) == allowed_ports_spec(raw).contains(p));
        }
        r
    }

    /// The set of usernames allowed to operate tunnels: the raw allow-list
    /// split at commas, each piece trimmed, without duplicates.
    pub fn get_allowed_users(&self) -> (r: Vec<String>)
        ensures
            forall|u: Seq<char>|
                #[trigger] crate::policy::has_user_view(r@, u) == allowed_users_spec(
                    self.allowed_users@,
                ).contains(u),
            forall|k1: int, k2: int|
                0 <= k1 < k2 < r@.len() ==> #[trigger] r@[k1]@ != #[trigger] r@[k2]@,
    {
        let ghost raw = self.allowed_users@;
        let pieces = crate::text::split_commas_exec(self.allowed_users.as_str());
        let n = pieces.len();
        let mut r: Vec<String> = Vec::new();
        let mut j: usize = 0;
        while j < n
            invariant
                j <= n,
                n == pieces@.len(),
                pieces@.map_values(|x: String| x@) == split_commas(raw),
                forall|k1: int, k2: int|
                    0 <= k1 < k2 < r@.len() ==> #[trigger] r@[k1]@ != #[trigger] r@[k2]@,
                forall|u: Seq<char>|
                    #[trigger] crate::policy::has_user_view(r@, u) == user_in_prefix(
                        raw,
                        j as int,
                        u,
                    ),
            decreases n - j,
        {
            proof {
                assert(pieces@[j as int]@ == split_commas(raw)[j as int]);
            }
            let t = crate::text::trim(pieces[j].as_str());
            let ghost tv = trim_spec(split_commas(raw)[j as int]);
            if !vec_contains_str(&r, t) {
                let ghost r0 = r@;
                r.push(t.to_owned());
                proof {
                    assert(!crate::policy::has_user_view(r0, tv));
                    assert forall|u: Seq<char>|
                        #[trigger] crate::policy::has_user_view(r@, u) implies user_in_prefix(
                        raw,
                        j + 1,
                        u,
                    ) by {
                        let k = choose|k: int| 0 <= k < r@.len() && #[trigger] r@[k]@ == u;
                        if k < r0.len() {
                            assert(r0[k]@ == u);
                            assert(crate::policy::has_user_view(r0, u));
                            assert(user_in_prefix(raw, j as int, u));
                        } else {
                            assert(u == tv);
                            assert(trim_spec(split_commas(raw)[j as int]) == u);
                        }
                    }
                    assert forall|u: Seq<char>| #[trigger] user_in_prefix(
                        raw,
                        j + 1,
                        u,
                    ) implies crate::policy::has_user_view(r@, u) by {
                        let i = choose|i: int|
                            0 <= i < j + 1 && trim_spec(#[trigger] split_commas(raw)[i]) == u;
                        if i < j {
                            assert(user_in_prefix(raw, j as int, u));
                            assert(crate::policy::has_user_view(r0, u));
                            let k = choose|k: int| 0 <= k < r0.len() && #[trigger] r0[k]@ == u;
                            assert(r@[k]@ == u);
                        } else {
                            assert(r@[r0.len() as int]@ == u);
                        }
                    }
                }
            } else {
                proof {
                    assert(crate::policy::has_user_view(r@, tv));
                    assert forall|u: Seq<char>| #[trigger] user_in_prefix(
                        raw,
                        j + 1,
                        u,
                    ) implies crate::policy::has_user_view(r@, u) by {
                        let i = choose|i: int|
                            0 <= i < j + 1 && trim_spec(#[trigger] split_commas(raw)[i]) == u;
                        if i < j {
                            assert(user_in_prefix(raw, j as int, u));
                        } else {
                            assert(u == tv);
                        }
                    }
                    assert forall|u: Seq<char>|
                        #[trigger] crate::policy::has_user_view(r@, u) implies user_in_prefix(
                        raw,
                        j + 1,
                        u,
                    ) by {
                        assert(user_in_prefix(raw, j as int, u));
                    }
                }
            }
            j = j + 1;
        }
        r
    }

    /// The public bind address, `server_host:server_port`.
    pub fn get_server_bind(&self) -> (r: String)
        ensures
            r@ == bind_addr(self.server_host@, self.server_port),
    {
        bind_string(&self.server_host, self.server_port)
    }

    /// The status-page bind address, `web_interface:web_port`.
    pub fn get_web_bind(&self) -> (r: String)
        ensures
            r@ == bind_addr(self.web_interface@, self.web_port),
    {
        bind_string(&self.web_interface, self.web_port)
    }

    /// The admission policy these settings describe.
    pub fn to_policy(&self) -> (p: AccessPolicy)
        ensures
            p@.allowed_ports == allowed_ports_spec(self.allowed_ports@),
            p@.allowed_users == allowed_users_spec(self.allowed_users@),
            p@.max_connections == self.max_connections,
    {
        let ports = self.get_allowed_ports();
        let users = self.get_allowed_users();
        let p = AccessPolicy::new(ports, users, self.max_connections);
        proof {
            assert(p@.allowed_ports =~= allowed_ports_spec(self.allowed_ports@));
            assert(p@.allowed_users =~= allowed_users_spec(self.allowed_users@));
        }
        p
    }
}

/// `host:port`.
fn bind_string(host: &String, port: u16) -> (r: String)
    ensures
        r@ == bind_addr(host@, port),
{
    let mut s = host.clone();
    s.append(":");
    let d = crate::text::u64_to_dec(port as u64);
    s.append(d.as_str());
    proof {
        reveal_strlit(":");
        assert(":"@ =~= seq![':']);
        assert(s@ =~= bind_addr(host@, port));
    }
    s
}

} // verus!
