use vstd::prelude::*;

use crate::config::{lemma_proxies_unique, proxies_of, Config};

verus! {

#[verifier::external_type_specification]
#[verifier::external_body]
pub struct ExClient(reqwest::Client);

#[verifier::external_type_specification]
#[verifier::external_body]
pub struct ExClientBuilder(reqwest::ClientBuilder);

#[verifier::external_type_specification]
#[verifier::external_body]
pub struct ExProxy(reqwest::Proxy);

#[verifier::external_type_specification]
#[verifier::external_body]
pub struct ExError(reqwest::Error);

/// Seconds an outbound exchange may take before the transport gives up on it.
pub const TRANSPORT_TIMEOUT_SECS: u64 = 3600;

/// Relies on reqwest::Client::builder: a builder with reqwest's defaults.
#[verifier::external_body]
fn client_builder() -> (r: reqwest::ClientBuilder) {
    reqwest::Client::builder()
}

/// Relies on reqwest::ClientBuilder::timeout: sets the whole-request timeout.
#[verifier::external_body]
fn with_timeout(b: reqwest::ClientBuilder, secs: u64) -> (r: reqwest::ClientBuilder) {
    b.timeout(std::time::Duration::from_secs(secs))
}

/// Whether reqwest takes `url` as a proxy endpoint (parsed as a URL, or as one
/// once `http://` is put before it); this depends on the text alone.
pub uninterp spec fn proxy_accepts(url: Seq<char>) -> bool;

/// Relies on reqwest::Proxy::all: parses `url` as a proxy for every scheme,
/// failing when it is not a valid proxy URL.
#[verifier::external_body]
fn proxy_all(url: &str) -> (r: Result<reqwest::Proxy, reqwest::Error>)
    ensures
        r is Ok == proxy_accepts(url@),
{
    reqwest::Proxy::all(url)
}

/// Relies on reqwest::ClientBuilder::proxy: routes the client's traffic through `p`.
#[verifier::external_body]
fn with_proxy(b: reqwest::ClientBuilder, p: reqwest::Proxy) -> (r: reqwest::ClientBuilder) {
    b.proxy(p)
}

/// Relies on reqwest::ClientBuilder::build, which fails when a TLS backend or
/// the resolver cannot be set up.
#[verifier::external_body]
fn build_client(b: reqwest::ClientBuilder) -> (r: Result<reqwest::Client, reqwest::Error>) {
    b.build()
}

/// Why a transport pool could not be built.
#[derive(Debug, PartialEq, Eq)]
pub enum ConfigurationError {
    /// The proxy URL of the route for this prefix is malformed.
    InvalidProxy(String),
    /// The HTTP client itself could not be set up.
    Transport,
}

/// One outbound transport, the key it is registered under, and the settings
/// its client was built with.
pub struct Transport {
    pub key: String,
    pub proxy_url: Option<String>,
    pub timeout_secs: u64,
    pub client: reqwest::Client,
}

/// The transports of one configuration snapshot, one per key.
pub struct TransportPool {
    pub entries: Vec<Transport>,
}

/// The key of the transport used for every prefix without its own.
pub open spec fn default_key() -> Seq<char> {
    "default"@
}

pub open spec fn has_key(s: Seq<Transport>, k: Seq<char>) -> bool {
    exists|i: int| 0 <= i < s.len() && #[trigger] s[i].key@ == k
}

/// The position of the transport keyed by `k`, or -1.
pub open spec fn key_index(s: Seq<Transport>, k: Seq<char>) -> int {
    if has_key(s, k) {
        choose|i: int| 0 <= i < s.len() && #[trigger] s[i].key@ == k
    } else {
        -1
    }
}

pub open spec fn keys_unique(s: Seq<Transport>) -> bool {
    forall|i: int, j: int|
        0 <= i < s.len() && 0 <= j < s.len() && #[trigger] s[i].key@ == #[trigger] s[j].key@
            ==> i == j
}

/// The transport keyed by `k` was built with the proxy URL `u`.
pub open spec fn bound_to(s: Seq<Transport>, k: Seq<char>, u: Seq<char>) -> bool {
    has_key(s, k) && (s[key_index(s, k)].proxy_url matches Some(p) && p@ == u)
}

pub open spec fn proxied(pairs: Seq<(Seq<char>, Seq<char>)>, k: Seq<char>) -> bool {
    exists|i: int| 0 <= i < pairs.len() && #[trigger] pairs[i].0 == k
}

impl TransportPool {
    /// Keys are unique and the default transport is present.
    pub open spec fn wf(&self) -> bool {
        keys_unique(self.entries@) && has_key(self.entries@, default_key())
    }

    /// The position of the transport that serves `prefix`.
    pub open spec fn slot_spec(&self, prefix: Seq<char>) -> int {
        if has_key(self.entries@, prefix) {
            key_index(self.entries@, prefix)
        } else {
            key_index(self.entries@, default_key())
        }
    }

    /// What building from `config` leaves: every proxy URL of a route is one
    /// that reqwest accepts; each route that names a proxy has a transport
    /// built with that proxy URL; the only other transport is the direct
    /// default one; every transport has the fixed timeout.
    pub open spec fn built_from(&self, config: &Config) -> bool {
        let pairs = proxies_of(config.endpoints@);
        &&& self.wf()
        &&& forall|i: int|
            0 <= i < pairs.len() ==> bound_to(self.entries@, (#[trigger] pairs[i]).0, pairs[i].1)
        &&& forall|i: int| 0 <= i < pairs.len() ==> proxy_accepts(#[trigger] pairs[i].1)
        &&& forall|j: int|
            0 <= j < self.entries@.len() ==> (#[trigger] self.entries@[j]).timeout_secs
                == TRANSPORT_TIMEOUT_SECS
        &&& forall|i: int|
            0 <= i < pairs.len() ==> has_key(self.entries@, #[trigger] pairs[i].0)
        &&& forall|j: int|
            0 <= j < self.entries@.len() ==> {
                let t = #[trigger] self.entries@[j];
                ||| (t.key@ == default_key() && t.proxy_url is None && !proxied(pairs, t.key@))
                ||| exists|i: int|
                    0 <= i < pairs.len() && #[trigger] pairs[i] == (t.key@, t.proxy_url.unwrap()@)
                        && t.proxy_url is Some
            }
    }

    proof fn lemma_key_index(&self, k: Seq<char>, i: int)
        requires
            keys_unique(self.entries@),
            0 <= i < self.entries@.len(),
            self.entries@[i].key@ == k,
        ensures
            has_key(self.entries@, k),
            key_index(self.entries@, k) == i,
    {
        assert(has_key(self.entries@, k));
    }

    /// A pool holding only the default transport.
    pub fn new(default: Transport) -> (r: TransportPool)
        requires
            default.key@ == default_key(),
        ensures
            r.wf(),
            r.entries@ == seq![default],
    {
        let mut entries: Vec<Transport> = Vec::new();
        entries.push(default);
        let r = TransportPool { entries };
        assert(r.entries@[0].key@ == default_key());
        r
    }

    /// The position of the transport keyed by `key`, if any.
    pub fn find(&self, key: &str) -> (r: Option<usize>)
        requires
            keys_unique(self.entries@),
        ensures
            match r {
                Some(i) => key_index(self.entries@, key@) == i as int && i < self.entries@.len(),
                None => !has_key(self.entries@, key@),
            },
    {
        let k = key.to_owned();
        let n = self.entries.len();
        let mut i: usize = 0;
        while i < n
            invariant
                n == self.entries@.len(),
                i <= n,
                k@ == key@,
                keys_unique(self.entries@),
                forall|j: int| 0 <= j < i ==> #[trigger] self.entries@[j].key@ != key@,
            decreases n - i,
        {
            if self.entries[i].key == k {
                proof {
                    self.lemma_key_index(key@, i as int);
                }
                return Some(i);
            }
            i = i + 1;
        }
        None
    }

    /// Registers `t` under its key, replacing the transport already there.
    pub fn insert(&mut self, t: Transport)
        requires
            old(self).wf(),
        ensures
            final(self).wf(),
            if has_key(old(self).entries@, t.key@) {
                final(self).entries@ == old(self).entries@.update(
                    key_index(old(self).entries@, t.key@),
                    t,
                )
            } else {
                final(self).entries@ == old(self).entries@.push(t)
            },
    {
        let ghost k = t.key@;
        let ghost before = self.entries@;
        match self.find(t.key.as_str()) {
            Some(i) => {
                self.entries.set(i, t);
                assert forall|j: int| 0 <= j < self.entries@.len() implies #[trigger] self.entries@[j].key@ == before[j].key@ by {}
                assert(self.entries@[key_index(before, default_key())].key@ == default_key());
            },
            None => {
                self.entries.push(t);
                assert(self.entries@[key_index(before, default_key())].key@ == default_key());
                assert forall|a: int, b: int|
                    0 <= a < self.entries@.len() && 0 <= b < self.entries@.len()
                        && #[trigger] self.entries@[a].key@ == #[trigger] self.entries@[b].key@
                    implies a == b by {
                    if a < before.len() && b == before.len() {
                        assert(before[a].key@ == k);
                    }
                    if b < before.len() && a == before.len() {
                        assert(before[b].key@ == k);
                    }
                }
            },
        }
    }

    /// The position of the transport that serves `prefix`: its own, else the default.
    pub fn slot_for(&self, prefix: &str) -> (r: usize)
        requires
            self.wf(),
        ensures
            r as int == self.slot_spec(prefix@),
            r < self.entries@.len(),
    {
        match self.find(prefix) {
            Some(i) => i,
            None => {
                match self.find("default") {
                    Some(d) => d,
                    None => 0,
                }
            },
        }
    }

    /// The transport that serves `prefix`: its own, else the default. Never fails.
    pub fn select(&self, prefix: &str) -> (r: &reqwest::Client)
        requires
            self.wf(),
        ensures
            *r == self.entries@[self.slot_spec(prefix@)].client,
    {
        let i = self.slot_for(prefix);
        &self.entries[i].client
    }
}

/// Which step of setting up one client failed.
enum ClientFailure {
    Proxy,
    Build,
}

/// The transport for `key`: a client with the fixed timeout, going through
/// `proxy_url` when one is given. It fails on a proxy URL exactly when reqwest
/// does not accept that URL, and otherwise only when the client cannot be built.
fn create_client(key: String, proxy_url: Option<String>) -> (r: Result<Transport, ClientFailure>)
    ensures
        match proxy_url {
            Some(u) => (r matches Err(ClientFailure::Proxy)) <==> !proxy_accepts(u@),
            None => !(r matches Err(ClientFailure::Proxy)),
        },
        r matches Ok(t) ==> t.key == key && t.proxy_url == proxy_url && t.timeout_secs
            == TRANSPORT_TIMEOUT_SECS,
{
    let timeout_secs = TRANSPORT_TIMEOUT_SECS;
    let mut builder = with_timeout(client_builder(), timeout_secs);
    if let Some(url) = &proxy_url {
        match proxy_all(url.as_str()) {
            Ok(p) => {
                builder = with_proxy(builder, p);
            },
            Err(_) => {
                return Err(ClientFailure::Proxy);
            },
        }
    }
    match build_client(builder) {
        Ok(client) => Ok(Transport { key, proxy_url, timeout_secs, client }),
        Err(_) => Err(ClientFailure::Build),
    }
}

/// Builds the pool of a configuration snapshot: a direct default transport,
/// then one per route that names a proxy. All or nothing: one proxy URL that
/// reqwest does not accept fails the whole pool. A route named `default` that
/// names a proxy replaces the direct default transport, and so serves every
/// prefix without a transport of its own.
pub fn create_clients(config: &Config) -> (r: Result<TransportPool, ConfigurationError>)
    requires
        config.wf(),
    ensures
        match r {
            Ok(pool) => pool.built_from(config),
            Err(ConfigurationError::InvalidProxy(prefix)) => exists|i: int|
                0 <= i < proxies_of(config.endpoints@).len() && #[trigger] proxies_of(
                    config.endpoints@,
                )[i].0 == prefix@ && !proxy_accepts(proxies_of(config.endpoints@)[i].1),
            Err(ConfigurationError::Transport) => true,
        },
        (exists|i: int|
            0 <= i < proxies_of(config.endpoints@).len() && !proxy_accepts(
                #[trigger] proxies_of(config.endpoints@)[i].1,
            )) ==> r is Err,
{
    let default = match create_client("default".to_owned(), None) {
        Ok(t) => t,
        Err(_) => {
            return Err(ConfigurationError::Transport);
        },
    };
    let mut pool = TransportPool::new(default);
    let pairs = config.get_endpoint_proxies();
    let ghost ps = proxies_of(config.endpoints@);
    proof {
        lemma_proxies_unique(config.endpoints@);
    }
    let n = pairs.len();
    let mut i: usize = 0;
    while i < n
        invariant
            n == pairs@.len(),
            pairs.deep_view() == ps,
            ps == proxies_of(config.endpoints@),
            i <= n,
            pool.wf(),
            forall|a: int| 0 <= a < i ==> has_key(pool.entries@, #[trigger] ps[a].0),
            forall|a: int| 0 <= a < i ==> proxy_accepts(#[trigger] ps[a].1),
            forall|a: int, b: int|
                0 <= a < ps.len() && 0 <= b < ps.len() && (#[trigger] ps[a]).0 == (
                #[trigger] ps[b]).0 ==> a == b,
            forall|a: int| 0 <= a < i ==> bound_to(pool.entries@, (#[trigger] ps[a]).0, ps[a].1),
            forall|j: int|
                0 <= j < pool.entries@.len() ==> (#[trigger] pool.entries@[j]).timeout_secs
                    == TRANSPORT_TIMEOUT_SECS,
            forall|j: int|
                0 <= j < pool.entries@.len() ==> {
                    let t = #[trigger] pool.entries@[j];
                    ||| (t.key@ == default_key() && t.proxy_url is None && !proxied(
                        ps.subrange(0, i as int),
                        t.key@,
                    ))
                    ||| exists|a: int|
                        0 <= a < i && #[trigger] ps[a] == (t.key@, t.proxy_url.unwrap()@)
                            && t.proxy_url is Some
                },
        decreases n - i,
    {
        let prefix = &pairs[i].0;
        let url = &pairs[i].1;
        assert(ps[i as int] == (prefix@, url@));
        let transport = match create_client(prefix.clone(), Some(url.clone())) {
            Ok(t) => t,
            Err(ClientFailure::Proxy) => {
                assert(ps[i as int].0 == prefix@);
                return Err(ConfigurationError::InvalidProxy(prefix.clone()));
            },
            Err(ClientFailure::Build) => {
                return Err(ConfigurationError::Transport);
            },
        };
        let ghost before = pool.entries@;
        pool.insert(transport);
        proof {
            let after = pool.entries@;
            let pos = if has_key(before, prefix@) {
                key_index(before, prefix@)
            } else {
                before.len() as int
            };
            assert(after[pos].key@ == prefix@);
            pool.lemma_key_index(prefix@, pos);
            let prev = ps.subrange(0, i as int);
            let next = ps.subrange(0, i + 1);
            assert(after.len() >= before.len());
            assert(has_key(after, prefix@)) by {
                if has_key(before, prefix@) {
                    assert(after[key_index(before, prefix@)].key@ == prefix@);
                } else {
                    assert(after[before.len() as int].key@ == prefix@);
                }
            }
            assert forall|j: int| 0 <= j < before.len() && before[j].key@ != prefix@ implies #[trigger] after[j] == before[j] by {
                if has_key(before, prefix@) {
                    assert(j != key_index(before, prefix@));
                }
            }
            assert forall|a: int| 0 <= a < i + 1 implies bound_to(after, (#[trigger] ps[a]).0, ps[a].1) by {
                if a < i {
                    assert(ps[a].0 != ps[i as int].0);
                    let m = key_index(before, ps[a].0);
                    assert(bound_to(before, ps[a].0, ps[a].1));
                    assert(before[m].key@ == ps[a].0);
                    assert(after[m] == before[m]);
                    pool.lemma_key_index(ps[a].0, m);
                }
            }
            assert forall|a: int| 0 <= a < i + 1 implies has_key(after, #[trigger] ps[a].0) by {
                if a < i && ps[a].0 != prefix@ {
                    let j = choose|j: int| 0 <= j < before.len() && #[trigger] before[j].key@ == ps[a].0;
                    assert(after[j] == before[j]);
                }
            }
            assert forall|j: int| 0 <= j < after.len() implies {
                let t = #[trigger] after[j];
                ||| (t.key@ == default_key() && t.proxy_url is None && !proxied(
                    ps.subrange(0, i + 1),
                    t.key@,
                ))
                ||| exists|a: int|
                    0 <= a < i + 1 && #[trigger] ps[a] == (t.key@, t.proxy_url.unwrap()@)
                        && t.proxy_url is Some
            } by {
                let t = after[j];
                if t.key@ == prefix@ {
                    if has_key(before, prefix@) {
                        assert(before[key_index(before, prefix@)].key@ == prefix@);
                        assert(j == key_index(before, prefix@));
                    } else {
                        assert(j == before.len());
                    }
                    assert(ps[i as int] == (t.key@, t.proxy_url.unwrap()@));
                } else {
                    assert(j < before.len());
                    assert(after[j] == before[j]);
                    let u = before[j];
                    if u.key@ == default_key() && u.proxy_url is None && !proxied(prev, u.key@) {
                        assert forall|a: int| 0 <= a < next.len() implies #[trigger] next[a].0 != u.key@ by {
                            if a < i {
                                assert(next[a] == prev[a]);
                            }
                        }
                    }
                }
            }
        }
        i = i + 1;
    }
    proof {
        assert(ps.subrange(0, n as int) =~= ps);
    }
    Ok(pool)
}

/// A prefix that has no transport of its own is served exactly as the
/// prefix `default` is.
pub proof fn lemma_unknown_prefix_uses_default(pool: &TransportPool, prefix: Seq<char>)
    requires
        pool.wf(),
        !has_key(pool.entries@, prefix),
    ensures
        pool.slot_spec(prefix) == pool.slot_spec(default_key()),
{
}

/// A prefix configured with an outbound proxy (other than `default`) is served
/// by a transport that serves no other prefix.
pub proof fn lemma_proxied_prefix_has_own_transport(
    pool: &TransportPool,
    config: &Config,
    prefix: Seq<char>,
    other: Seq<char>,
)
    requires
        pool.built_from(config),
        proxied(proxies_of(config.endpoints@), prefix),
        prefix != default_key(),
        other != prefix,
    ensures
        pool.slot_spec(prefix) != pool.slot_spec(other),
{
    let ps = proxies_of(config.endpoints@);
    let a = choose|a: int| 0 <= a < ps.len() && #[trigger] ps[a].0 == prefix;
    assert(has_key(pool.entries@, ps[a].0));
    let s = pool.entries@;
    let i = key_index(s, prefix);
    let j = pool.slot_spec(other);
    if has_key(s, other) {
        let k = key_index(s, other);
        assert(s[k].key@ == other);
    } else {
        let d = key_index(s, default_key());
        assert(s[d].key@ == default_key());
    }
}

} // verus!
