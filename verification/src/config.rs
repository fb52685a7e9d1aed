//! Configuration: the validated form of the YAML file, environment variable
//! substitution and the IP allow-list.

use vstd::prelude::*;
use vstd::string::*;
use crate::external::{
    base64_standard_decode, decode_base64, ip_address_parse, ip_network_parse, parse_ip_address, parse_ip_network,
    string_from_utf8, utf8_error_text,
};
use crate::metrics::labels::{Labels, LabelSeq, pairs_view};
use crate::text::{chars_of, concat, join_strings, join_with, push_all, slice_chars, string_of, strings_view};

verus! {

/// Configuration error types.
#[derive(Debug)]
pub enum ConfigError {
    MissingValue(String),
    FileError(String),
    YamlError(String),
    Base64Error(String),
    InvalidValue(String),
    EnvVarNotFound(String),
}

/// The message that an error displays.
pub open spec fn config_error_text(e: ConfigError) -> Seq<char> {
    match e {
        ConfigError::MissingValue(s) => "Missing required config: "@ + s@,
        ConfigError::FileError(s) => "Config file error: "@ + s@,
        ConfigError::YamlError(s) => "YAML parse error: "@ + s@,
        ConfigError::Base64Error(s) => "Base64 decode error: "@ + s@,
        ConfigError::InvalidValue(s) => "Invalid value: "@ + s@,
        ConfigError::EnvVarNotFound(s) => "Environment variable not found: "@ + s@,
    }
}

impl ConfigError {
    /// The error's message.
    pub fn to_string(&self) -> (r: String)
        ensures
            r@ == config_error_text(*self),
    {
        match self {
            ConfigError::MissingValue(s) => concat("Missing required config: ", s.as_str()),
            ConfigError::FileError(s) => concat("Config file error: ", s.as_str()),
            ConfigError::YamlError(s) => concat("YAML parse error: ", s.as_str()),
            ConfigError::Base64Error(s) => concat("Base64 decode error: ", s.as_str()),
            ConfigError::InvalidValue(s) => concat("Invalid value: ", s.as_str()),
            ConfigError::EnvVarNotFound(s) => concat("Environment variable not found: ", s.as_str()),
        }
    }
}

/// Authentication type for the /metrics endpoint.
#[derive(Debug, Clone, Copy, PartialEq, Eq, Structural)]
pub enum AuthType {
    NoAuth,
    Basic,
    Bearer,
}

impl Default for AuthType {
    fn default() -> (t: AuthType)
        ensures
            t == AuthType::NoAuth,
    {
        AuthType::NoAuth
    }
}

/// The name that an authentication type displays.
pub open spec fn auth_type_name(t: AuthType) -> Seq<char> {
    match t {
        AuthType::NoAuth => "none"@,
        AuthType::Basic => "basic"@,
        AuthType::Bearer => "bearer"@,
    }
}

impl AuthType {
    /// The type's name.
    pub fn to_string(&self) -> (r: String)
        ensures
            r@ == auth_type_name(*self),
    {
        match self {
            AuthType::NoAuth => String::from_str("none"),
            AuthType::Basic => String::from_str("basic"),
            AuthType::Bearer => String::from_str("bearer"),
        }
    }
}

/// TLS configuration.
#[derive(Debug, Clone)]
pub struct TlsConfig {
    pub cert: Option<String>,
    pub key: Option<String>,
}

impl Default for TlsConfig {
    fn default() -> (c: TlsConfig)
        ensures
            c.cert is None,
            c.key is None,
    {
        TlsConfig { cert: None, key: None }
    }
}

impl TlsConfig {
    /// TLS is on when both a certificate and a key are given.
    pub fn is_enabled(&self) -> (b: bool)
        ensures
            b == (self.cert is Some && self.key is Some),
    {
        self.cert.is_some() && self.key.is_some()
    }
}

/// Authentication configuration.
#[derive(Debug, Clone)]
pub struct AuthConfig {
    pub auth_type: AuthType,
    pub username: Option<String>,
    pub password: Option<String>,
    pub token: Option<String>,
}

impl Default for AuthConfig {
    fn default() -> (c: AuthConfig)
        ensures
            c.auth_type == AuthType::NoAuth,
            c.username is None,
            c.password is None,
            c.token is None,
    {
        AuthConfig { auth_type: AuthType::NoAuth, username: None, password: None, token: None }
    }
}

/// Server configuration.
#[derive(Debug, Clone)]
pub struct ServerConfig {
    pub port: u16,
    pub auth: AuthConfig,
    pub allowed_ips: Vec<String>,
    pub tls: TlsConfig,
    /// Cache TTL in seconds. 0 = no caching (default).
    pub cache_ttl_seconds: u64,
    /// Optional GZIP compression level (1-9).
    pub gzip_level: Option<u32>,
}

/// The port that the server listens on unless configured.
pub fn default_port() -> (p: u16)
    ensures
        p == 9090,
{
    9090
}

impl Default for ServerConfig {
    fn default() -> (c: ServerConfig)
        ensures
            c.port == 9090,
            c.auth.auth_type == AuthType::NoAuth,
            c.auth.username is None,
            c.auth.password is None,
            c.auth.token is None,
            c.allowed_ips@.len() == 0,
            c.tls.cert is None,
            c.tls.key is None,
            c.cache_ttl_seconds == 0,
            c.gzip_level is None,
    {
        ServerConfig {
            port: default_port(),
            auth: AuthConfig::default(),
            allowed_ips: Vec::new(),
            tls: TlsConfig::default(),
            cache_ttl_seconds: 0,
            gzip_level: None,
        }
    }
}

/// Source type.
#[derive(Debug, Clone, Copy, PartialEq, Eq, Structural)]
pub enum SourceType {
    PromphpRedis,
}

impl SourceType {
    /// The type's name as written in the configuration.
    pub fn to_string(&self) -> (r: String)
        ensures
            r@ == "promphp-redis"@,
    {
        String::from_str("promphp-redis")
    }
}

/// Label encoding format of promphp metrics.
#[derive(Debug, Clone, Copy, PartialEq, Eq, Structural)]
pub enum LabelFormat {
    /// Try JSON first, then base64.
    Auto,
    /// Raw JSON array: `["value1", "value2"]`.
    Json,
    /// Base64-encoded JSON array.
    Base64,
}

impl Default for LabelFormat {
    fn default() -> (f: LabelFormat)
        ensures
            f == LabelFormat::Auto,
    {
        LabelFormat::Auto
    }
}

/// Source configuration.
#[derive(Debug, Clone)]
pub struct SourceConfig {
    pub name: String,
    pub source_type: SourceType,
    pub redis_url: String,
    pub prefix: String,
    pub labels: Labels,
    /// Cache TTL in seconds for this source. 0 = no caching (default).
    pub cache_ttl_seconds: u64,
    pub label_format: LabelFormat,
}

/// The key prefix of a source unless configured.
pub fn default_prefix() -> (p: String)
    ensures
        p@ == "PROMETHEUS_"@,
{
    String::from_str("PROMETHEUS_")
}

// ---------------------------------------------------------------------------
// Environment variable substitution
// ---------------------------------------------------------------------------

/// Length of the variable name at the start of `s`: everything up to the
/// first `}` (or to the end).
pub open spec fn name_end(s: Seq<char>) -> int
    decreases s.len(),
{
    if s.len() == 0 {
        0
    } else if s[0] == '}' {
        0
    } else {
        1 + name_end(s.drop_first())
    }
}

pub proof fn lemma_name_end(s: Seq<char>)
    ensures
        0 <= name_end(s) <= s.len(),
        name_end(s) < s.len() ==> s[name_end(s)] == '}',
        forall|k: int| 0 <= k < name_end(s) ==> s[k] != '}',
    decreases s.len(),
{
    if s.len() > 0 && s[0] != '}' {
        lemma_name_end(s.drop_first());
        assert forall|k: int| 0 <= k < name_end(s) implies s[k] != '}' by {
            if k > 0 {
                assert(s[k] == s.drop_first()[k - 1]);
            }
        }
    }
}

proof fn lemma_name_end_at(s: Seq<char>, p: int)
    requires
        0 <= p <= s.len(),
        forall|k: int| 0 <= k < p ==> s[k] != '}',
        p == s.len() || s[p] == '}',
    ensures
        name_end(s) == p,
    decreases s.len(),
{
    if p > 0 {
        assert(s[0] != '}');
        let t = s.drop_first();
        assert forall|k: int| 0 <= k < p - 1 implies t[k] != '}' by {
            assert(t[k] == s[k + 1]);
        }
        if p < s.len() {
            assert(t[p - 1] == s[p]);
        }
        lemma_name_end_at(t, p - 1);
    }
}

/// The value of variable `name` in an environment (the first pair with that name).
pub open spec fn env_lookup(env: LabelSeq, name: Seq<char>) -> Option<Seq<char>>
    decreases env.len(),
{
    if env.len() == 0 {
        None
    } else if env[0].0 == name {
        Some(env[0].1)
    } else {
        env_lookup(env.drop_first(), name)
    }
}

/// The text after the reference whose name starts `rest`: the closing `}`,
/// when there is one, is consumed too.
pub open spec fn after_reference(rest: Seq<char>) -> Seq<char> {
    let n = name_end(rest);
    if n < rest.len() {
        rest.skip(n + 1)
    } else {
        rest.skip(n)
    }
}

/// Expanding `${NAME}` references: the expanded text, and the names that the
/// environment does not hold, in order of appearance. `$` not followed by `{`
/// is kept as it is; a reference without `}` runs to the end of the text.
pub open spec fn expansion(s: Seq<char>, env: LabelSeq) -> (Seq<char>, Seq<Seq<char>>)
    decreases s.len(),
{
    if s.len() == 0 {
        (Seq::empty(), Seq::empty())
    } else if s.len() >= 2 && s[0] == '$' && s[1] == '{' {
        let rest = s.skip(2);
        let name = rest.take(name_end(rest));
        proof {
            lemma_name_end(rest);
        }
        let (o, m) = expansion(after_reference(rest), env);
        match env_lookup(env, name) {
            Some(v) => (v + o, m),
            None => (o, seq![name] + m),
        }
    } else {
        let (o, m) = expansion(s.drop_first(), env);
        (seq![s[0]] + o, m)
    }
}

/// The result of `expand_env_vars`.
pub open spec fn expand_result(s: Seq<char>, env: LabelSeq) -> Result<Seq<char>, Seq<char>> {
    let (o, m) = expansion(s, env);
    if m.len() == 0 {
        Ok(o)
    } else {
        Err(join_with(m, ", "@))
    }
}

/// A text without `$` holds no reference: expanding it gives it back
/// unchanged, whatever the environment.
pub proof fn lemma_expand_without_references(s: Seq<char>, env: LabelSeq)
    requires
        !s.contains('$'),
    ensures
        expansion(s, env) == (s, Seq::<Seq<char>>::empty()),
        expand_result(s, env) == Ok::<Seq<char>, Seq<char>>(s),
    decreases s.len(),
{
    if s.len() > 0 {
        assert(s[0] != '$');
        let t = s.drop_first();
        assert(!t.contains('$')) by {
            if t.contains('$') {
                let i = choose|i: int| 0 <= i < t.len() && t[i] == '$';
                assert(s[i + 1] == '$');
            }
        }
        lemma_expand_without_references(t, env);
        assert(seq![s[0]] + t =~= s);
    }
}

/// A reference `${a}` followed by any text `t` expands to the value of `a`
/// (or to nothing, with `a` noted as missing) followed by the expansion of
/// `t`: the text after a reference is expanded like any other, including a
/// reference that starts right after the closing brace.
pub proof fn lemma_expand_reference_then_text(a: Seq<char>, t: Seq<char>, env: LabelSeq)
    requires
        !a.contains('}'),
    ensures
        expansion(seq!['$', '{'] + a + seq!['}'] + t, env) == (match env_lookup(env, a) {
            Some(v) => (v + expansion(t, env).0, expansion(t, env).1),
            None => (expansion(t, env).0, seq![a] + expansion(t, env).1),
        }),
{
    let s = seq!['$', '{'] + a + seq!['}'] + t;
    let rest = s.skip(2);
    assert(rest =~= a + seq!['}'] + t);
    assert forall|k: int| 0 <= k < a.len() implies rest[k] != '}' by {
        assert(rest[k] == a[k]);
        if a[k] == '}' {
            assert(a.contains('}'));
        }
    }
    assert(rest[a.len() as int] == '}');
    lemma_name_end_at(rest, a.len() as int);
    assert(rest.take(a.len() as int) =~= a);
    assert(after_reference(rest) =~= t);
    assert(s[0] == '$' && s[1] == '{');
}

/// A reference without a closing brace runs to the end of the text.
pub proof fn lemma_expand_unclosed_reference(a: Seq<char>, env: LabelSeq)
    requires
        !a.contains('}'),
    ensures
        expansion(seq!['$', '{'] + a, env) == (match env_lookup(env, a) {
            Some(v) => (v, Seq::<Seq<char>>::empty()),
            None => (Seq::<char>::empty(), seq![a]),
        }),
{
    let s = seq!['$', '{'] + a;
    let rest = s.skip(2);
    assert(rest =~= a);
    assert forall|k: int| 0 <= k < a.len() implies rest[k] != '}' by {
        if a[k] == '}' {
            assert(a.contains('}'));
        }
    }
    lemma_name_end_at(rest, a.len() as int);
    assert(rest.take(a.len() as int) =~= a);
    assert(after_reference(rest) =~= Seq::<char>::empty());
    assert(s[0] == '$' && s[1] == '{');
    let e = expansion(Seq::<char>::empty(), env);
    assert(e == (Seq::<char>::empty(), Seq::<Seq<char>>::empty()));
    match env_lookup(env, a) {
        Some(v) => {
            assert(v + e.0 =~= v);
        },
        None => {
            assert(seq![a] + e.1 =~= seq![a]);
        },
    }
}

/// A variable's value is that of the first pair with its name; a name that
/// no pair has is missing.
pub proof fn lemma_env_lookup_first(env: LabelSeq, name: Seq<char>)
    ensures
        match env_lookup(env, name) {
            Some(v) => exists|i: int|
                0 <= i < env.len() && #[trigger] env[i] == (name, v) && forall|j: int| 0 <= j < i ==> (#[trigger] env[j]).0 != name,
            None => forall|i: int| 0 <= i < env.len() ==> (#[trigger] env[i]).0 != name,
        },
    decreases env.len(),
{
    if env.len() > 0 {
        let t = env.drop_first();
        lemma_env_lookup_first(t, name);
        if env[0].0 == name {
            assert(env[0] == (name, env[0].1));
        } else {
            match env_lookup(t, name) {
                Some(v) => {
                    let i = choose|i: int|
                        0 <= i < t.len() && #[trigger] t[i] == (name, v) && forall|j: int| 0 <= j < i ==> (#[trigger] t[j]).0 != name;
                    assert(env[i + 1] == t[i]);
                    assert forall|j: int| 0 <= j < i + 1 implies (#[trigger] env[j]).0 != name by {
                        if j > 0 {
                            assert(env[j] == t[j - 1]);
                        }
                    }
                },
                None => {
                    assert forall|i: int| 0 <= i < env.len() implies (#[trigger] env[i]).0 != name by {
                        if i > 0 {
                            assert(env[i] == t[i - 1]);
                        }
                    }
                },
            }
        }
    }
}

/// A character that does not start a reference is kept, and the rest of the
/// text is expanded after it.
pub proof fn lemma_expand_plain_char(c: char, t: Seq<char>, env: LabelSeq)
    requires
        c != '$' || t.len() == 0 || t[0] != '{',
    ensures
        expansion(seq![c] + t, env) == (seq![c] + expansion(t, env).0, expansion(t, env).1),
{
    let s = seq![c] + t;
    assert(s.drop_first() =~= t);
    if s.len() >= 2 {
        assert(s[1] == t[0]);
    }
}

fn lookup_env<'a>(env: &'a [(String, String)], name: &String) -> (r: Option<&'a String>)
    ensures
        match r {
            Some(v) => env_lookup(pairs_view(env@), name@) == Some(v@),
            None => env_lookup(pairs_view(env@), name@) is None,
        },
{
    let ghost e = pairs_view(env@);
    assert(e.skip(0) =~= e);
    let n = env.len();
    for i in 0..n
        invariant
            n == env@.len(),
            e == pairs_view(env@),
            env_lookup(e, name@) == env_lookup(e.skip(i as int), name@),
    {
        assert(e.skip(i as int)[0] == e[i as int]);
        if env[i].0 == *name {
            return Some(&env[i].1);
        }
        assert(e.skip(i as int).drop_first() =~= e.skip(i + 1));
    }
    assert(e.skip(n as int).len() == 0);
    None
}

/// Expands `${VAR}` references with the values of an environment, given as
/// name/value pairs.
///
/// Every reference is looked up; if any name is missing, the error lists all
/// missing names, separated by ", ".
pub fn expand_env_vars(content: &str, env: &[(String, String)]) -> (r: Result<String, ConfigError>)
    ensures
        match r {
            Ok(s) => expand_result(content@, pairs_view(env@)) == Ok::<Seq<char>, Seq<char>>(s@),
            Err(ConfigError::EnvVarNotFound(names)) => expand_result(content@, pairs_view(env@))
                == Err::<Seq<char>, Seq<char>>(names@),
            Err(_) => false,
        },
{
    let ghost e = pairs_view(env@);
    let chars = chars_of(content);
    let ghost s = chars@;
    let n = chars.len();
    let mut out: Vec<char> = Vec::new();
    let mut errors: Vec<String> = Vec::new();
    let mut i: usize = 0;
    assert(s.skip(0) =~= s);
    while i < n
        invariant
            n == s.len(),
            s == chars@,
            s == content@,
            e == pairs_view(env@),
            i <= n,
            expansion(s, e) == ({
                let (o, m) = expansion(s.skip(i as int), e);
                (out@ + o, strings_view(errors@) + m)
            }),
        decreases n - i,
    {
        let ghost t = s.skip(i as int);
        assert(t[0] == s[i as int]);
        if chars[i] == '$' && i + 1 < n && chars[i + 1] == '{' {
            assert(t[1] == s[i + 1]);
            let ghost rest = t.skip(2);
            let mut j: usize = i + 2;
            while j < n && chars[j] != '}'
                invariant
                    i + 2 <= j <= n,
                    n == s.len(),
                    s == chars@,
                    rest == s.skip(i + 2),
                    forall|k: int| i + 2 <= k < j ==> s[k] != '}',
                decreases n - j,
            {
                j = j + 1;
            }
            proof {
                assert forall|k: int| 0 <= k < j - (i + 2) implies rest[k] != '}' by {
                    assert(rest[k] == s[k + i + 2]);
                }
                if j < n {
                    assert(rest[j - (i + 2)] == s[j as int]);
                }
                lemma_name_end_at(rest, j - (i + 2));
            }
            let name = string_of(&slice_chars(&chars, i + 2, j));
            assert(name@ =~= rest.take(name_end(rest)));
            let next = if j < n { j + 1 } else { j };
            assert(after_reference(rest) =~= s.skip(next as int));
            let ghost (o2, m2) = expansion(s.skip(next as int), e);
            match lookup_env(env, &name) {
                Some(value) => {
                    let value_chars = chars_of(value.as_str());
                    let ghost before = out@;
                    push_all(&mut out, &value_chars);
                    assert(out@ + o2 =~= before + (value@ + o2));
                },
                None => {
                    let ghost before = strings_view(errors@);
                    errors.push(name);
                    assert(strings_view(errors@) =~= before.push(name@));
                    assert(strings_view(errors@) + m2 =~= before + (seq![name@] + m2));
                },
            }
            i = next;
        } else {
            let ghost before = out@;
            out.push(chars[i]);
            assert(t.drop_first() =~= s.skip(i + 1));
            let ghost (o2, m2) = expansion(s.skip(i + 1), e);
            assert(out@ + o2 =~= before + (seq![s[i as int]] + o2));
            i = i + 1;
        }
    }
    assert(s.skip(n as int).len() == 0);
    if errors.len() > 0 {
        return Err(ConfigError::EnvVarNotFound(join_strings(&errors, ", ")));
    }
    Ok(string_of(&out))
}

// ---------------------------------------------------------------------------
// IP addresses and networks
// ---------------------------------------------------------------------------

/// An IP address: IPv4 addresses hold their 32 bits in the low bits.
#[derive(Debug, Clone, Copy, PartialEq, Eq, Structural)]
pub struct IpAddress {
    pub is_v6: bool,
    pub bits: u128,
}

/// An IP network: an address and a prefix length, as ipnet's `IpNet` holds
/// them; as there, the address and prefix always fit the family.
#[derive(Debug, Clone, Copy, PartialEq, Eq, Structural)]
pub struct IpNetwork {
    is_v6: bool,
    addr: u128,
    prefix_len: u8,
}

/// The abstract value of an `IpNetwork`.
pub struct IpNetworkView {
    pub is_v6: bool,
    pub addr: u128,
    pub prefix_len: u8,
}

impl IpNetworkView {
    /// Prefix and address fit the family, as ipnet guarantees.
    pub open spec fn wf(self) -> bool {
        if self.is_v6 {
            self.prefix_len <= 128
        } else {
            self.addr < 0x1_0000_0000 && self.prefix_len <= 32
        }
    }
}

impl View for IpNetwork {
    type V = IpNetworkView;

    closed spec fn view(&self) -> IpNetworkView {
        IpNetworkView { is_v6: self.is_v6, addr: self.addr, prefix_len: self.prefix_len }
    }
}

impl IpAddress {
    /// An IPv4 address from its four octets.
    pub fn v4(octets: [u8; 4]) -> (a: IpAddress)
        ensures
            !a.is_v6,
            a.bits == octets[0] as int * 0x1000000 + octets[1] as int * 0x10000 + octets[2] as int
                * 0x100 + octets[3] as int,
    {
        let bits: u128 = (octets[0] as u128) * 0x1000000 + (octets[1] as u128) * 0x10000
            + (octets[2] as u128) * 0x100 + (octets[3] as u128);
        IpAddress { is_v6: false, bits }
    }

    /// An IPv6 address from its 128 bits.
    pub fn v6(bits: u128) -> (a: IpAddress)
        ensures
            a.is_v6,
            a.bits == bits,
    {
        IpAddress { is_v6: true, bits }
    }

    /// Parses a single IPv4 or IPv6 address.
    pub fn parse(text: &str) -> (r: Result<IpAddress, String>)
        ensures
            match r {
                Ok(a) => ip_address_parse(text@) == Ok::<(bool, u128), Seq<char>>((a.is_v6, a.bits))
                    && a.wf(),
                Err(m) => ip_address_parse(text@) == Err::<(bool, u128), Seq<char>>(m@),
            },
    {
        match parse_ip_address(text) {
            Ok((is_v6, bits)) => Ok(IpAddress { is_v6, bits }),
            Err(m) => Err(m),
        }
    }

    /// The address is a valid IPv4 or IPv6 address.
    pub open spec fn wf(self) -> bool {
        !self.is_v6 ==> self.bits < 0x1_0000_0000
    }
}

/// Mask of the network bits of an IPv4 prefix (ipnet's `netmask`).
pub open spec fn v4_netmask(p: u8) -> u32 {
    if p == 0 {
        0
    } else {
        0xffff_ffffu32 << ((32 - p) as u32)
    }
}

/// Mask of the host bits of an IPv4 prefix (ipnet's `hostmask`).
pub open spec fn v4_hostmask(p: u8) -> u32 {
    if p >= 32 {
        0
    } else {
        0xffff_ffffu32 >> (p as u32)
    }
}

/// Mask of the network bits of an IPv6 prefix.
pub open spec fn v6_netmask(p: u8) -> u128 {
    if p == 0 {
        0
    } else {
        0xffff_ffff_ffff_ffff_ffff_ffff_ffff_ffffu128 << ((128 - p) as u128)
    }
}

/// Mask of the host bits of an IPv6 prefix.
pub open spec fn v6_hostmask(p: u8) -> u128 {
    if p >= 128 {
        0
    } else {
        0xffff_ffff_ffff_ffff_ffff_ffff_ffff_ffffu128 >> (p as u128)
    }
}

/// ipnet's `contains`: same family, and the address lies between the
/// network's first address (address & netmask) and its last (address | hostmask).
pub open spec fn network_contains(net: IpNetworkView, ip: IpAddress) -> bool {
    net.is_v6 == ip.is_v6 && if !net.is_v6 {
        let a = net.addr as u32;
        let x = ip.bits as u32;
        (a & v4_netmask(net.prefix_len)) <= x <= (a | v4_hostmask(net.prefix_len))
    } else {
        (net.addr & v6_netmask(net.prefix_len)) <= ip.bits <= (net.addr | v6_hostmask(
            net.prefix_len,
        ))
    }
}

/// The network of a single address: the whole prefix (ipnet's `From<IpAddr>`).
pub open spec fn host_network(a: IpAddress) -> IpNetworkView {
    IpNetworkView { is_v6: a.is_v6, addr: a.bits, prefix_len: if a.is_v6 { 128 } else { 32 } }
}

impl IpNetwork {
    #[verifier::type_invariant]
    spec fn network_fits(self) -> bool {
        self@.wf()
    }

    /// Whether the network is IPv6.
    pub fn is_v6(&self) -> (b: bool)
        ensures
            b == self@.is_v6,
    {
        self.is_v6
    }

    /// The network's address, as it was written (host bits included).
    pub fn addr(&self) -> (a: u128)
        ensures
            a == self@.addr,
    {
        self.addr
    }

    /// The prefix length.
    pub fn prefix_len(&self) -> (p: u8)
        ensures
            p == self@.prefix_len,
    {
        self.prefix_len
    }

    /// Parses `address/prefix` with ipnet.
    pub fn parse(text: &str) -> (r: Result<IpNetwork, String>)
        ensures
            match r {
                Ok(net) => ip_network_parse(text@) == Some((net@.is_v6, net@.addr, net@.prefix_len)),
                Err(msg) => ip_network_parse(text@) is None && msg@ == "invalid IP address syntax"@,
            },
    {
        match parse_ip_network(text) {
            Ok((is_v6, addr, prefix_len)) => Ok(IpNetwork { is_v6, addr, prefix_len }),
            Err(e) => Err(e),
        }
    }

    /// The network holding exactly one address.
    pub fn from_address(a: IpAddress) -> (n: IpNetwork)
        requires
            a.wf(),
        ensures
            n@ == host_network(a),
    {
        IpNetwork { is_v6: a.is_v6, addr: a.bits, prefix_len: if a.is_v6 { 128 } else { 32 } }
    }

    /// Whether the network holds the address.
    pub fn contains(&self, ip: IpAddress) -> (b: bool)
        ensures
            b == network_contains(self@, ip),
            b == (self@.is_v6 == ip.is_v6 && (self@.prefix_len == 0 || (if self@.is_v6 {
                (ip.bits >> ((128 - self@.prefix_len) as u128)) == (self@.addr >> ((128
                    - self@.prefix_len) as u128))
            } else {
                ((ip.bits as u32) >> ((32 - self@.prefix_len) as u32)) == ((self@.addr as u32) >> ((32
                    - self@.prefix_len) as u32))
            }))),
    {
        proof {
            use_type_invariant(self);
            lemma_network_contains_prefix(self@, ip);
        }
        if self.is_v6 != ip.is_v6 {
            return false;
        }
        let p = self.prefix_len;
        if !self.is_v6 {
            let a = self.addr as u32;
            let x = ip.bits as u32;
            let netmask: u32 = if p == 0 { 0 } else { 0xffff_ffffu32 << ((32 - p) as u32) };
            let hostmask: u32 = if p >= 32 { 0 } else { 0xffff_ffffu32 >> (p as u32) };
            (a & netmask) <= x && x <= (a | hostmask)
        } else {
            let netmask: u128 = if p == 0 {
                0
            } else {
                0xffff_ffff_ffff_ffff_ffff_ffff_ffff_ffffu128 << ((128 - p) as u128)
            };
            let hostmask: u128 = if p >= 128 {
                0
            } else {
                0xffff_ffff_ffff_ffff_ffff_ffff_ffff_ffffu128 >> (p as u128)
            };
            (self.addr & netmask) <= ip.bits && ip.bits <= (self.addr | hostmask)
        }
    }
}

/// The network of a single address holds that address and no other
/// (of the same family or the other).
pub proof fn lemma_host_network_contains(a: IpAddress, b: IpAddress)
    requires
        a.wf(),
        b.wf(),
    ensures
        host_network(a).wf(),
        network_contains(host_network(a), b) <==> a == b,
{
    if !a.is_v6 && !b.is_v6 {
        let x = a.bits;
        let y = b.bits;
        assert(0xffff_ffffu32 << 0u32 == 0xffff_ffffu32) by (bit_vector);
        let ax = x as u32;
        let bx = y as u32;
        assert((ax & 0xffff_ffffu32) == ax && (ax | 0u32) == ax) by (bit_vector);
        assert(x < 0x1_0000_0000 ==> (x as u32) as u128 == x) by (bit_vector);
        assert(y < 0x1_0000_0000 ==> (y as u32) as u128 == y) by (bit_vector);
    } else if a.is_v6 && b.is_v6 {
        let x = a.bits;
        assert(0xffff_ffff_ffff_ffff_ffff_ffff_ffff_ffffu128 << 0u128
            == 0xffff_ffff_ffff_ffff_ffff_ffff_ffff_ffffu128) by (bit_vector);
        assert((x & 0xffff_ffff_ffff_ffff_ffff_ffff_ffff_ffffu128) == x && (x | 0u128) == x)
            by (bit_vector);
    }
}

/// The network that an allow-list entry stands for, or the message that
/// refuses it. An entry with `/` is a network, parsed by ipnet; any other
/// entry is a single address, parsed by std, which stands for the network
/// holding that address alone.
pub open spec fn allowed_entry(entry: Seq<char>) -> Result<IpNetworkView, Seq<char>> {
    if entry.contains('/') {
        match ip_network_parse(entry) {
            Some((v6, a, p)) => Ok(IpNetworkView { is_v6: v6, addr: a, prefix_len: p }),
            None => Err("Invalid IP network: "@ + "invalid IP address syntax"@),
        }
    } else {
        match ip_address_parse(entry) {
            Ok((v6, bits)) => Ok(host_network(IpAddress { is_v6: v6, bits })),
            Err(m) => Err("Invalid IP address: "@ + m),
        }
    }
}

proof fn lemma_v4_block(a: u32, x: u32, s: u32)
    by (bit_vector)
    requires
        0 < s < 32,
    ensures
        ((a & (0xffff_ffffu32 << s)) <= x && x <= (a | (0xffff_ffffu32 >> ((32 - s) as u32)))) <==> (x
            >> s) == (a >> s),
{
}

#[verifier::rlimit(100)]
proof fn lemma_v6_block(a: u128, x: u128, s: u128)
    by (bit_vector)
    requires
        0 < s < 128,
    ensures
        ((a & (0xffff_ffff_ffff_ffff_ffff_ffff_ffff_ffffu128 << s)) <= x && x <= (a | (
        0xffff_ffff_ffff_ffff_ffff_ffff_ffff_ffffu128 >> ((128 - s) as u128)))) <==> (x >> s) == (a
            >> s),
{
}

/// A network holds exactly the addresses of its family whose first
/// `prefix_len` bits are those of the network's address (all of them for a
/// prefix of 0), as ipnet's `contains` decides.
pub proof fn lemma_network_contains_prefix(n: IpNetworkView, x: IpAddress)
    requires
        n.wf(),
    ensures
        network_contains(n, x) <==> (n.is_v6 == x.is_v6 && (n.prefix_len == 0 || (if n.is_v6 {
            (x.bits >> ((128 - n.prefix_len) as u128)) == (n.addr >> ((128 - n.prefix_len) as u128))
        } else {
            ((x.bits as u32) >> ((32 - n.prefix_len) as u32)) == ((n.addr as u32) >> ((32
                - n.prefix_len) as u32))
        }))),
{
    let p = n.prefix_len;
    if n.is_v6 == x.is_v6 {
        if !n.is_v6 {
            let a = n.addr as u32;
            let xx = x.bits as u32;
            if p == 0 {
                assert((a & 0u32) <= xx && xx <= (a | (0xffff_ffffu32 >> 0u32))) by (bit_vector);
            } else if p == 32 {
                assert((a & (0xffff_ffffu32 << 0u32)) <= xx && xx <= (a | 0u32) <==> (xx >> 0u32) == (a
                    >> 0u32)) by (bit_vector);
            } else {
                let sh = (32 - p) as u32;
                assert(32 - sh == p);
                lemma_v4_block(a, xx, sh);
            }
        } else {
            let a = n.addr;
            let xx = x.bits;
            if p == 0 {
                assert((a & 0u128) <= xx && xx <= (a | (0xffff_ffff_ffff_ffff_ffff_ffff_ffff_ffffu128
                    >> 0u128))) by (bit_vector);
            } else if p == 128 {
                assert((a & (0xffff_ffff_ffff_ffff_ffff_ffff_ffff_ffffu128 << 0u128)) <= xx && xx <= (a
                    | 0u128) <==> (xx >> 0u128) == (a >> 0u128)) by (bit_vector);
            } else {
                let sh = (128 - p) as u128;
                assert(128 - sh == p);
                lemma_v6_block(a, xx, sh);
            }
        }
    }
}

/// An allow-list entry without `/` that parses as an address stands for the
/// `/32` or `/128` network of that address, which admits that address and
/// no other.
pub proof fn lemma_address_entry_admits_only_itself(entry: Seq<char>, a: IpAddress, b: IpAddress)
    requires
        !entry.contains('/'),
        ip_address_parse(entry) == Ok::<(bool, u128), Seq<char>>((a.is_v6, a.bits)),
        a.wf(),
        b.wf(),
    ensures
        allowed_entry(entry) == Ok::<IpNetworkView, Seq<char>>(host_network(a)),
        host_network(a).prefix_len == (if a.is_v6 {
            128u8
        } else {
            32u8
        }),
        network_contains(host_network(a), b) <==> a == b,
{
    lemma_host_network_contains(a, b);
}

/// The networks of an allow-list, or the message of its first bad entry.
pub open spec fn allowed_networks(entries: Seq<Seq<char>>) -> Result<Seq<IpNetworkView>, Seq<char>>
    decreases entries.len(),
{
    if entries.len() == 0 {
        Ok(Seq::empty())
    } else {
        match allowed_networks(entries.drop_last()) {
            Err(m) => Err(m),
            Ok(v) => match allowed_entry(entries.last()) {
                Ok(n) => Ok(v.push(n)),
                Err(m) => Err(m),
            },
        }
    }
}

/// Once a prefix of the allow-list fails, the whole list fails with the same message.
proof fn lemma_allowed_networks_err(entries: Seq<Seq<char>>, k: int, m: Seq<char>)
    requires
        0 <= k <= entries.len(),
        allowed_networks(entries.take(k)) == Err::<Seq<IpNetworkView>, Seq<char>>(m),
    ensures
        allowed_networks(entries) == Err::<Seq<IpNetworkView>, Seq<char>>(m),
    decreases entries.len() - k,
{
    if k == entries.len() {
        assert(entries.take(k) =~= entries);
    } else {
        let e2 = entries.drop_last();
        assert(e2.take(k) =~= entries.take(k));
        lemma_allowed_networks_err(e2, k, m);
    }
}

/// The abstract values of a sequence of networks.
pub open spec fn networks_view(v: Seq<IpNetwork>) -> Seq<IpNetworkView> {
    Seq::new(v.len(), |i: int| v[i]@)
}

/// Whether a text holds the character `c`.
fn has_char(text: &str, c: char) -> (b: bool)
    ensures
        b == text@.contains(c),
{
    let chars = chars_of(text);
    let n = chars.len();
    for i in 0..n
        invariant
            n == chars@.len(),
            chars@ == text@,
            forall|k: int| 0 <= k < i ==> chars@[k] != c,
    {
        if chars[i] == c {
            assert(text@[i as int] == c);
            return true;
        }
    }
    false
}

/// Application configuration.
#[derive(Debug, Clone)]
pub struct Config {
    pub server: ServerConfig,
    pub sources: Vec<SourceConfig>,
    pub allowed_networks: Vec<IpNetwork>,
}

impl Config {
    /// Checks that the configured authentication has its credentials.
    pub fn validate_auth(auth: &AuthConfig) -> (r: Result<(), ConfigError>)
        ensures
            match r {
                Ok(()) => match auth.auth_type {
                    AuthType::Basic => auth.username is Some && auth.password is Some,
                    AuthType::Bearer => auth.token is Some,
                    AuthType::NoAuth => true,
                },
                Err(ConfigError::InvalidValue(m)) => match auth.auth_type {
                    AuthType::Basic => (auth.username is None || auth.password is None) && m@
                        == "Basic auth requires username and password"@,
                    AuthType::Bearer => auth.token is None && m@ == "Bearer auth requires token"@,
                    AuthType::NoAuth => false,
                },
                Err(_) => false,
            },
    {
        match auth.auth_type {
            AuthType::Basic => {
                if auth.username.is_none() || auth.password.is_none() {
                    return Err(
                        ConfigError::InvalidValue(
                            String::from_str("Basic auth requires username and password"),
                        ),
                    );
                }
            },
            AuthType::Bearer => {
                if auth.token.is_none() {
                    return Err(ConfigError::InvalidValue(String::from_str("Bearer auth requires token")));
                }
            },
            AuthType::NoAuth => {},
        }
        Ok(())
    }

    /// Parses the allow-list into networks: an entry with `/` as a network,
    /// any other entry as a single address, which becomes the network holding
    /// that address alone (`/32` or `/128`).
    pub fn parse_allowed_ips(ips: &[String]) -> (r: Result<Vec<IpNetwork>, ConfigError>)
        ensures
            match r {
                Ok(v) => allowed_networks(strings_view(ips@)) == Ok::<Seq<IpNetworkView>, Seq<char>>(
                    networks_view(v@),
                ),
                Err(ConfigError::InvalidValue(m)) => allowed_networks(strings_view(ips@))
                    == Err::<Seq<IpNetworkView>, Seq<char>>(m@),
                Err(_) => false,
            },
    {
        let ghost entries = strings_view(ips@);
        let mut nets: Vec<IpNetwork> = Vec::new();
        let n = ips.len();
        assert(networks_view(nets@) =~= Seq::<IpNetworkView>::empty());
        assert(entries.take(0) =~= Seq::<Seq<char>>::empty());
        for i in 0..n
            invariant
                n == ips@.len(),
                entries == strings_view(ips@),
                allowed_networks(entries.take(i as int)) == Ok::<Seq<IpNetworkView>, Seq<char>>(
                    networks_view(nets@),
                ),
        {
            let ghost prev = nets@;
            assert(entries.take(i + 1).drop_last() =~= entries.take(i as int));
            assert(entries.take(i + 1).last() == ips@[i as int]@);
            let entry = ips[i].as_str();
            if has_char(entry, '/') {
                match IpNetwork::parse(entry) {
                    Ok(net) => nets.push(net),
                    Err(e) => {
                        let msg = concat("Invalid IP network: ", e.as_str());
                        proof {
                            lemma_allowed_networks_err(entries, i + 1, msg@);
                        }
                        return Err(ConfigError::InvalidValue(msg));
                    },
                }
            } else {
                match IpAddress::parse(entry) {
                    Ok(a) => nets.push(IpNetwork::from_address(a)),
                    Err(e) => {
                        let msg = concat("Invalid IP address: ", e.as_str());
                        proof {
                            lemma_allowed_networks_err(entries, i + 1, msg@);
                        }
                        return Err(ConfigError::InvalidValue(msg));
                    },
                }
            }
            assert(networks_view(nets@) =~= networks_view(prev).push(nets@.last()@));
        }
        assert(entries.take(n as int) =~= entries);
        Ok(nets)
    }

    /// Builds the configuration from its parsed parts: the authentication must
    /// have its credentials, at least one source must be given, and every
    /// allow-list entry must be an address or a network.
    pub fn from_parts(server: ServerConfig, sources: Vec<SourceConfig>) -> (r: Result<Config, ConfigError>)
        ensures
            match r {
                Ok(c) => Config::validate_auth_ok(&server.auth) && sources@.len() > 0
                    && allowed_networks(strings_view(server.allowed_ips@))
                    == Ok::<Seq<IpNetworkView>, Seq<char>>(networks_view(c.allowed_networks@))
                    && c.server == server && c.sources == sources,
                Err(ConfigError::InvalidValue(m)) => !Config::validate_auth_ok(&server.auth) || (
                sources@.len() > 0 && allowed_networks(strings_view(server.allowed_ips@))
                    == Err::<Seq<IpNetworkView>, Seq<char>>(m@)),
                Err(ConfigError::MissingValue(m)) => Config::validate_auth_ok(&server.auth)
                    && sources@.len() == 0 && m@ == "sources"@,
                Err(_) => false,
            },
    {
        Self::validate_auth(&server.auth)?;
        if sources.len() == 0 {
            return Err(ConfigError::MissingValue(String::from_str("sources")));
        }
        let allowed_networks = Self::parse_allowed_ips(server.allowed_ips.as_slice())?;
        Ok(Config { server, sources, allowed_networks })
    }

    /// Whether the authentication configuration has its credentials.
    pub open spec fn validate_auth_ok(auth: &AuthConfig) -> bool {
        match auth.auth_type {
            AuthType::Basic => auth.username is Some && auth.password is Some,
            AuthType::Bearer => auth.token is Some,
            AuthType::NoAuth => true,
        }
    }

    /// Whether a client address may reach /metrics: an empty allow-list
    /// allows every address, otherwise some network must hold it.
    pub fn is_ip_allowed(&self, ip: IpAddress) -> (b: bool)
        ensures
            b == (self.allowed_networks@.len() == 0 || exists|i: int|
                0 <= i < self.allowed_networks@.len() && network_contains(
                    #[trigger] self.allowed_networks@[i]@,
                    ip,
                )),
    {
        let n = self.allowed_networks.len();
        if n == 0 {
            return true;
        }
        for i in 0..n
            invariant
                n == self.allowed_networks@.len(),
                forall|k: int| 0 <= k < i ==> !network_contains(#[trigger] self.allowed_networks@[k]@, ip),
        {
            if self.allowed_networks[i].contains(ip) {
                return true;
            }
        }
        false
    }
}

/// Decodes base64-encoded configuration text (CONFIG_BASE64).
pub fn decode_config_base64(b64: &str) -> (r: Result<String, ConfigError>)
    ensures
        match r {
            Ok(s) => base64_standard_decode(b64@) matches Ok(bytes) && vstd::utf8::valid_utf8(bytes) && s@
                == vstd::utf8::decode_utf8(bytes),
            Err(ConfigError::Base64Error(m)) => match base64_standard_decode(b64@) {
                Err(e) => m@ == e,
                Ok(bytes) => !vstd::utf8::valid_utf8(bytes) && m@ == utf8_error_text(bytes),
            },
            Err(_) => false,
        },
{
    let bytes = match decode_base64(b64) {
        Ok(b) => b,
        Err(e) => return Err(ConfigError::Base64Error(e)),
    };
    match string_from_utf8(bytes) {
        Ok(s) => Ok(s),
        Err(e) => Err(ConfigError::Base64Error(e)),
    }
}

} // verus!
