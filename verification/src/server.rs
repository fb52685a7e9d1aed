//! Decisions of the HTTP endpoints: who may read /metrics, when the cached
//! page is served, and what /ready answers.

use vstd::prelude::*;
use vstd::string::*;
use crate::config::{AuthType, Config, IpAddress, network_contains};
use crate::external::{base64_standard_decode, decode_base64, string_from_utf8};
use crate::text::{chars_eq, chars_of, join_strings, join_with, slice_chars, string_of, strings_view, concat};

verus! {

/// The rendered /metrics page kept between requests.
#[derive(Clone)]
pub struct CachedMetrics {
    pub data: String,
    pub timestamp: std::time::Instant,
}

/// The configured credential, or the empty text when none is configured.
pub open spec fn credential(o: Option<String>) -> Seq<char> {
    match o {
        Some(s) => s@,
        None => Seq::empty(),
    }
}

/// Index of the first `c` in `s`, or -1.
pub open spec fn first_index(s: Seq<char>, c: char) -> int
    decreases s.len(),
{
    if s.len() == 0 {
        -1
    } else if s[0] == c {
        0
    } else {
        let k = first_index(s.drop_first(), c);
        if k < 0 {
            -1
        } else {
            k + 1
        }
    }
}

proof fn lemma_first_index_at(s: Seq<char>, c: char, p: int)
    requires
        0 <= p <= s.len(),
        forall|k: int| 0 <= k < p ==> s[k] != c,
        p == s.len() || s[p] == c,
    ensures
        first_index(s, c) == (if p == s.len() {
            -1
        } else {
            p
        }),
    decreases s.len(),
{
    if s.len() > 0 && p > 0 {
        let t = s.drop_first();
        assert forall|k: int| 0 <= k < p - 1 implies t[k] != c by {
            assert(t[k] == s[k + 1]);
        }
        if p < s.len() {
            assert(t[p - 1] == s[p]);
        }
        lemma_first_index_at(t, c, p - 1);
    }
}

/// Whether decoded `user:password` credentials match the configured ones;
/// the user name ends at the first colon.
pub open spec fn credentials_match(cred: Seq<char>, user: Seq<char>, password: Seq<char>) -> bool {
    let i = first_index(cred, ':');
    i >= 0 && cred.take(i) == user && cred.skip(i + 1) == password
}

/// Whether an Authorization header passes basic authentication: it starts
/// with `Basic `, the rest is base64 of UTF-8 `user:password`, and both parts
/// equal the configured ones (a missing one counts as empty).
pub open spec fn basic_auth_accepts(header: Option<Seq<char>>, config: Config) -> bool {
    match header {
        None => false,
        Some(h) => h.len() >= 6 && h.take(6) == "Basic "@ && match base64_standard_decode(h.skip(6)) {
            Err(_) => false,
            Ok(bytes) => vstd::utf8::valid_utf8(bytes) && credentials_match(
                vstd::utf8::decode_utf8(bytes),
                credential(config.server.auth.username),
                credential(config.server.auth.password),
            ),
        },
    }
}

/// Whether an Authorization header passes bearer authentication: it is
/// `Bearer ` followed by the configured token (a missing one counts as empty).
pub open spec fn bearer_auth_accepts(header: Option<Seq<char>>, config: Config) -> bool {
    match header {
        None => false,
        Some(h) => h.len() >= 7 && h.take(7) == "Bearer "@ && h.skip(7) == credential(
            config.server.auth.token,
        ),
    }
}

/// A header `Basic <encoded>` passes basic authentication when `<encoded>`
/// decodes to the UTF-8 text `user:password` of the configured credentials
/// and the user name holds no colon; the password may hold colons.
pub proof fn lemma_basic_credentials_accepted(config: Config, encoded: Seq<char>, bytes: Seq<u8>)
    requires
        config.server.auth.username is Some,
        config.server.auth.password is Some,
        !credential(config.server.auth.username).contains(':'),
        base64_standard_decode(encoded) == Ok::<Seq<u8>, Seq<char>>(bytes),
        vstd::utf8::valid_utf8(bytes),
        vstd::utf8::decode_utf8(bytes) == credential(config.server.auth.username) + seq![':']
            + credential(config.server.auth.password),
    ensures
        basic_auth_accepts(Some("Basic "@ + encoded), config),
{
    reveal_strlit("Basic ");
    let h = "Basic "@ + encoded;
    assert(h.take(6) =~= "Basic "@);
    assert(h.skip(6) =~= encoded);
    let user = credential(config.server.auth.username);
    let password = credential(config.server.auth.password);
    let cred = user + seq![':'] + password;
    assert forall|k: int| 0 <= k < user.len() implies cred[k] != ':' by {
        assert(cred[k] == user[k]);
        if user[k] == ':' {
            assert(user.contains(':'));
        }
    }
    lemma_first_index_at(cred, ':', user.len() as int);
    assert(cred.take(user.len() as int) =~= user);
    assert(cred.skip(user.len() as int + 1) =~= password);
}

/// A header `Bearer <token>` carrying the configured token passes bearer
/// authentication.
pub proof fn lemma_bearer_token_accepted(config: Config, token: Seq<char>)
    requires
        config.server.auth.token matches Some(t) && t@ == token,
    ensures
        bearer_auth_accepts(Some("Bearer "@ + token), config),
{
    reveal_strlit("Bearer ");
    let h = "Bearer "@ + token;
    assert(h.take(7) =~= "Bearer "@);
    assert(h.skip(7) =~= token);
}

/// The characters of an optional header.
pub open spec fn header_view(h: Option<&str>) -> Option<Seq<char>> {
    match h {
        Some(s) => Some(s@),
        None => None,
    }
}

/// Whether `chars` starts with `prefix`.
fn starts_with(chars: &Vec<char>, prefix: &str) -> (b: bool)
    ensures
        b == (prefix@.len() <= chars@.len() && chars@.take(prefix@.len() as int) == prefix@),
{
    let p = chars_of(prefix);
    if p.len() > chars.len() {
        return false;
    }
    let head = slice_chars(chars, 0, p.len());
    assert(chars@.subrange(0, p@.len() as int) =~= chars@.take(p@.len() as int));
    chars_eq(&head, &p)
}

/// Checks an Authorization header value against the configured basic credentials.
pub fn check_basic_auth(authorization: Option<&str>, config: &Config) -> (b: bool)
    ensures
        b == basic_auth_accepts(header_view(authorization), *config),
{
    let auth_str = match authorization {
        Some(h) => h,
        None => return false,
    };
    let chars = chars_of(auth_str);
    if !starts_with(&chars, "Basic ") {
        return false;
    }
    proof {
        reveal_strlit("Basic ");
    }
    let encoded = string_of(&slice_chars(&chars, 6, chars.len()));
    assert(encoded@ =~= auth_str@.skip(6));
    let decoded = match decode_base64(encoded.as_str()) {
        Ok(d) => d,
        Err(_) => return false,
    };
    let credentials = match string_from_utf8(decoded) {
        Ok(s) => s,
        Err(_) => return false,
    };
    let cred = chars_of(credentials.as_str());
    let n = cred.len();
    let mut i: usize = 0;
    while i < n && cred[i] != ':'
        invariant
            i <= n,
            n == cred@.len(),
            forall|k: int| 0 <= k < i ==> cred@[k] != ':',
        decreases n - i,
    {
        i = i + 1;
    }
    proof {
        lemma_first_index_at(cred@, ':', i as int);
    }
    if i == n {
        return false;
    }
    let user = slice_chars(&cred, 0, i);
    let password = slice_chars(&cred, i + 1, n);
    assert(cred@.subrange(0, i as int) =~= cred@.take(i as int));
    assert(cred@.subrange(i + 1, n as int) =~= cred@.skip(i + 1));
    let expected_user = match &config.server.auth.username {
        Some(u) => chars_of(u.as_str()),
        None => Vec::new(),
    };
    let expected_pass = match &config.server.auth.password {
        Some(p) => chars_of(p.as_str()),
        None => Vec::new(),
    };
    chars_eq(&user, &expected_user) && chars_eq(&password, &expected_pass)
}

/// Checks an Authorization header value against the configured bearer token.
pub fn check_bearer_auth(authorization: Option<&str>, config: &Config) -> (b: bool)
    ensures
        b == bearer_auth_accepts(header_view(authorization), *config),
{
    let auth_str = match authorization {
        Some(h) => h,
        None => return false,
    };
    let chars = chars_of(auth_str);
    if !starts_with(&chars, "Bearer ") {
        return false;
    }
    proof {
        reveal_strlit("Bearer ");
    }
    let token = slice_chars(&chars, 7, chars.len());
    assert(token@ =~= auth_str@.skip(7));
    let expected = match &config.server.auth.token {
        Some(t) => chars_of(t.as_str()),
        None => Vec::new(),
    };
    chars_eq(&token, &expected)
}

/// The answer of the authentication layer in front of /metrics.
#[derive(Debug, Clone, Copy, PartialEq, Eq, Structural)]
pub enum AuthDecision {
    /// The request goes on to the handler.
    Allow,
    /// 403: the client address is not on the allow-list.
    Forbidden,
    /// 401: the credentials are missing or wrong.
    Unauthorized,
}

/// The decision for a client address and Authorization header: the address
/// is checked first, then the configured authentication.
pub open spec fn auth_decision(config: Config, client: IpAddress, header: Option<Seq<char>>) -> AuthDecision {
    let allowed = config.allowed_networks@.len() == 0 || exists|i: int|
        0 <= i < config.allowed_networks@.len() && network_contains(
            #[trigger] config.allowed_networks@[i]@,
            client,
        );
    if !allowed {
        AuthDecision::Forbidden
    } else {
        match config.server.auth.auth_type {
            AuthType::NoAuth => AuthDecision::Allow,
            AuthType::Basic => if basic_auth_accepts(header, config) {
                AuthDecision::Allow
            } else {
                AuthDecision::Unauthorized
            },
            AuthType::Bearer => if bearer_auth_accepts(header, config) {
                AuthDecision::Allow
            } else {
                AuthDecision::Unauthorized
            },
        }
    }
}

/// With an empty allow-list and no authentication every request reaches
/// /metrics, whatever its address and headers.
pub proof fn lemma_open_access(config: Config, client: IpAddress, header: Option<Seq<char>>)
    requires
        config.allowed_networks@.len() == 0,
        config.server.auth.auth_type == AuthType::NoAuth,
    ensures
        auth_decision(config, client, header) == AuthDecision::Allow,
{
}

/// Decides whether a request may reach /metrics.
pub fn authorize(config: &Config, client: IpAddress, authorization: Option<&str>) -> (d: AuthDecision)
    ensures
        d == auth_decision(*config, client, header_view(authorization)),
{
    if !config.is_ip_allowed(client) {
        return AuthDecision::Forbidden;
    }
    match config.server.auth.auth_type {
        AuthType::NoAuth => AuthDecision::Allow,
        AuthType::Basic => if check_basic_auth(authorization, config) {
            AuthDecision::Allow
        } else {
            AuthDecision::Unauthorized
        },
        AuthType::Bearer => if check_bearer_auth(authorization, config) {
            AuthDecision::Allow
        } else {
            AuthDecision::Unauthorized
        },
    }
}

/// Whether /metrics answers from the cached page: caching is on (TTL > 0)
/// and a page younger than the TTL, in whole seconds, is kept.
pub fn serve_cached(ttl_seconds: u64, cached_age_seconds: Option<u64>) -> (b: bool)
    ensures
        b == (ttl_seconds > 0 && (cached_age_seconds matches Some(age) && age < ttl_seconds)),
{
    if ttl_seconds == 0 {
        return false;
    }
    match cached_age_seconds {
        Some(age) => age < ttl_seconds,
        None => false,
    }
}

/// Keeps a rendered page for later requests, stamped with the time it was
/// rendered, when caching is on (TTL > 0); otherwise the slot is left as it is.
pub fn store_page(slot: &mut Option<CachedMetrics>, ttl_seconds: u64, data: String, now: std::time::Instant)
    ensures
        *final(slot) == (if ttl_seconds > 0 {
            Some(CachedMetrics { data, timestamp: now })
        } else {
            *old(slot)
        }),
{
    if ttl_seconds > 0 {
        *slot = Some(CachedMetrics { data, timestamp: now });
    }
}

/// The answer of /ready.
#[derive(Debug, Clone)]
pub struct ReadyReport {
    /// 200 when true, 503 otherwise.
    pub all_healthy: bool,
    /// One line `name: ok` or `name: error` per source.
    pub body: String,
}

/// The line of one source in the /ready body.
pub open spec fn ready_line(name: Seq<char>, healthy: bool) -> Seq<char> {
    name + ": "@ + if healthy {
        "ok"@
    } else {
        "error"@
    }
}

/// Builds the /ready answer from the health of each source, in order.
pub fn ready_report(results: &[(String, bool)]) -> (r: ReadyReport)
    ensures
        r.all_healthy == (forall|i: int| 0 <= i < results@.len() ==> #[trigger] results@[i].1),
        r.body@ == join_with(
            Seq::new(results@.len(), |i: int| ready_line(results@[i].0@, results@[i].1)),
            "\n"@,
        ),
{
    let ghost lines_spec = Seq::new(results@.len(), |i: int| ready_line(results@[i].0@, results@[i].1));
    let mut lines: Vec<String> = Vec::new();
    let mut all_healthy = true;
    let n = results.len();
    for i in 0..n
        invariant
            n == results@.len(),
            lines_spec == Seq::new(results@.len(), |i: int| ready_line(results@[i].0@, results@[i].1)),
            strings_view(lines@) =~= lines_spec.take(i as int),
            all_healthy == (forall|k: int| 0 <= k < i ==> #[trigger] results@[k].1),
    {
        let line = concat(results[i].0.as_str(), if results[i].1 {
            ": ok"
        } else {
            ": error"
        });
        proof {
            reveal_strlit(": ok");
            reveal_strlit(": error");
            reveal_strlit(": ");
            reveal_strlit("ok");
            reveal_strlit("error");
        }
        assert(line@ =~= lines_spec[i as int]);
        let ghost before = strings_view(lines@);
        lines.push(line);
        assert(strings_view(lines@) =~= before.push(lines_spec[i as int]));
        if !results[i].1 {
            all_healthy = false;
        }
    }
    assert(lines_spec.take(n as int) =~= lines_spec);
    ReadyReport { all_healthy, body: join_strings(&lines, "\n") }
}

} // verus!
