use vstd::prelude::*;

verus! {

/// Upstream origin used when neither the endpoint nor the server names one.
pub const DEFAULT_TARGET_BASE: &'static str = "https://api.anthropic.com";

/// Port the server listens on when none is configured.
pub const DEFAULT_PORT: u16 = 8811;

/// Settings of the listening server.
pub struct ServerConfig {
    pub port: Option<u16>,
    pub target_base: Option<String>,
}

/// Settings of one routed prefix.
pub struct EndpointConfig {
    pub proxy_url: Option<String>,
    pub target_base: Option<String>,
}

/// One configuration snapshot: the server settings and the routes, keyed by prefix.
pub struct Config {
    pub server: ServerConfig,
    pub endpoints: Vec<(String, EndpointConfig)>,
}

pub open spec fn opt_view(o: Option<String>) -> Option<Seq<char>> {
    match o {
        Some(s) => Some(s@),
        None => None,
    }
}

/// The `(prefix, proxy_url)` pairs of the routes that name an outbound proxy, in order.
pub open spec fn proxies_of(eps: Seq<(String, EndpointConfig)>) -> Seq<(Seq<char>, Seq<char>)>
    decreases eps.len(),
{
    if eps.len() == 0 {
        Seq::empty()
    } else {
        let rest = proxies_of(eps.drop_last());
        match eps.last().1.proxy_url {
            Some(u) => rest.push((eps.last().0@, u@)),
            None => rest,
        }
    }
}

/// The settings of the first route keyed by `key`.
pub open spec fn endpoint_of(eps: Seq<(String, EndpointConfig)>, key: Seq<char>) -> Option<
    EndpointConfig,
>
    decreases eps.len(),
{
    if eps.len() == 0 {
        None
    } else if eps[0].0@ == key {
        Some(eps[0].1)
    } else {
        endpoint_of(eps.drop_first(), key)
    }
}

pub open spec fn prefixes_unique(eps: Seq<(String, EndpointConfig)>) -> bool {
    forall|i: int, j: int|
        0 <= i < eps.len() && 0 <= j < eps.len() && #[trigger] eps[i].0@ == #[trigger] eps[j].0@
            ==> i == j
}

/// Each listed proxy belongs to a route, and with unique route prefixes no
/// prefix is listed twice.
pub proof fn lemma_proxies_unique(eps: Seq<(String, EndpointConfig)>)
    requires
        prefixes_unique(eps),
    ensures
        forall|a: int|
            0 <= a < proxies_of(eps).len() ==> exists|k: int|
                0 <= k < eps.len() && #[trigger] eps[k].0@ == (#[trigger] proxies_of(eps)[a]).0,
        forall|a: int, b: int|
            0 <= a < proxies_of(eps).len() && 0 <= b < proxies_of(eps).len() && (
            #[trigger] proxies_of(eps)[a]).0 == (#[trigger] proxies_of(eps)[b]).0 ==> a == b,
    decreases eps.len(),
{
    if eps.len() > 0 {
        let rest = eps.drop_last();
        assert forall|i: int, j: int|
            0 <= i < rest.len() && 0 <= j < rest.len() && #[trigger] rest[i].0@ == #[trigger] rest[j].0@
            implies i == j by {
            assert(eps[i] == rest[i] && eps[j] == rest[j]);
        }
        lemma_proxies_unique(rest);
        let pr = proxies_of(rest);
        let ps = proxies_of(eps);
        assert forall|a: int| 0 <= a < pr.len() implies exists|k: int|
            0 <= k < eps.len() - 1 && #[trigger] eps[k].0@ == (#[trigger] pr[a]).0 by {
            let k = choose|k: int| 0 <= k < rest.len() && #[trigger] rest[k].0@ == pr[a].0;
            assert(eps[k] == rest[k]);
        }
        assert forall|a: int| 0 <= a < pr.len() implies (#[trigger] pr[a]).0 != eps.last().0@ by {
            let k = choose|k: int| 0 <= k < eps.len() - 1 && #[trigger] eps[k].0@ == pr[a].0;
            assert(eps[k].0@ == eps[eps.len() - 1].0@ ==> k == eps.len() - 1);
        }
        assert forall|a: int| 0 <= a < ps.len() implies exists|k: int|
            0 <= k < eps.len() && #[trigger] eps[k].0@ == (#[trigger] ps[a]).0 by {
            if a < pr.len() {
                assert(ps[a] == pr[a]);
                let k = choose|k: int| 0 <= k < eps.len() - 1 && #[trigger] eps[k].0@ == pr[a].0;
                assert(eps[k].0@ == ps[a].0);
            } else {
                assert(eps[eps.len() - 1].0@ == ps[a].0);
            }
        }
        assert forall|a: int, b: int|
            0 <= a < ps.len() && 0 <= b < ps.len() && (#[trigger] ps[a]).0 == (#[trigger] ps[b]).0
            implies a == b by {
            if a < pr.len() && b < pr.len() {
                assert(ps[a] == pr[a] && ps[b] == pr[b]);
            } else if a < pr.len() {
                assert(ps[a] == pr[a]);
            } else if b < pr.len() {
                assert(ps[b] == pr[b]);
            }
        }
    }
}

impl Config {
    /// No two routes share a prefix.
    pub open spec fn wf(&self) -> bool {
        prefixes_unique(self.endpoints@)
    }

    /// Whether no two routes share a prefix.
    pub fn has_unique_prefixes(&self) -> (r: bool)
        ensures
            r == self.wf(),
    {
        let n = self.endpoints.len();
        let mut i: usize = 0;
        while i < n
            invariant
                n == self.endpoints@.len(),
                i <= n,
                forall|a: int, b: int|
                    0 <= a < i && 0 <= b < i && #[trigger] self.endpoints@[a].0@
                        == #[trigger] self.endpoints@[b].0@ ==> a == b,
            decreases n - i,
        {
            let mut j: usize = 0;
            while j < i
                invariant
                    n == self.endpoints@.len(),
                    j <= i < n,
                    forall|b: int| 0 <= b < j ==> #[trigger] self.endpoints@[b].0@ != self.endpoints@[i as int].0@,
                decreases i - j,
            {
                if self.endpoints[j].0 == self.endpoints[i].0 {
                    return false;
                }
                j = j + 1;
            }
            i = i + 1;
        }
        true
    }

    /// The target base for `key`: the route's own if it sets one, else the server's.
    pub open spec fn target_base_spec(&self, key: Seq<char>) -> Option<Seq<char>> {
        match endpoint_of(self.endpoints@, key) {
            Some(e) if e.target_base.is_some() => opt_view(e.target_base),
            _ => opt_view(self.server.target_base),
        }
    }

    /// Lists `(prefix, proxy_url)` for every route that names an outbound proxy.
    pub fn get_endpoint_proxies(&self) -> (r: Vec<(String, String)>)
        ensures
            r.deep_view() == proxies_of(self.endpoints@),
    {
        let mut r: Vec<(String, String)> = Vec::new();
        let n = self.endpoints.len();
        let mut i: usize = 0;
        while i < n
            invariant
                n == self.endpoints@.len(),
                i <= n,
                r.deep_view() == proxies_of(self.endpoints@.subrange(0, i as int)),
            decreases n - i,
        {
            let ghost before = r.deep_view();
            let entry = &self.endpoints[i];
            assert(self.endpoints@.subrange(0, i + 1).drop_last() =~= self.endpoints@.subrange(
                0,
                i as int,
            ));
            match &entry.1.proxy_url {
                Some(u) => {
                    r.push((entry.0.clone(), u.clone()));
                    assert(r.deep_view() =~= before.push((entry.0@, u@)));
                },
                None => {},
            }
            i = i + 1;
        }
        assert(self.endpoints@.subrange(0, n as int) =~= self.endpoints@);
        r
    }

    /// The upstream base for the prefix `endpoint`: the route's own target base,
    /// else the server's; `None` when neither is set.
    pub fn get_endpoint_target_base(&self, endpoint: &str) -> (r: Option<String>)
        ensures
            opt_view(r) == self.target_base_spec(endpoint@),
    {
        let key = endpoint.to_owned();
        let n = self.endpoints.len();
        let mut i: usize = 0;
        assert(self.endpoints@.subrange(0, n as int) =~= self.endpoints@);
        while i < n
            invariant
                n == self.endpoints@.len(),
                i <= n,
                key@ == endpoint@,
                endpoint_of(self.endpoints@, key@) == endpoint_of(
                    self.endpoints@.subrange(i as int, n as int),
                    key@,
                ),
            decreases n - i,
        {
            let entry = &self.endpoints[i];
            assert(self.endpoints@.subrange(i as int, n as int).drop_first() =~= self.endpoints@.subrange(
                i + 1,
                n as int,
            ));
            if entry.0 == key {
                if let Some(t) = &entry.1.target_base {
                    return Some(t.clone());
                }
                return self.server_target_base();
            }
            i = i + 1;
        }
        self.server_target_base()
    }

    fn server_target_base(&self) -> (r: Option<String>)
        ensures
            opt_view(r) == opt_view(self.server.target_base),
    {
        match &self.server.target_base {
            Some(t) => Some(t.clone()),
            None => None,
        }
    }
}

impl Default for Config {
    /// No routes; port 8811 and the well-known API origin as target base.
    fn default() -> (r: Config)
        ensures
            r.endpoints@.len() == 0,
            r.server.port == Some(DEFAULT_PORT),
            opt_view(r.server.target_base) == Some(DEFAULT_TARGET_BASE@),
    {
        Config {
            server: ServerConfig {
                port: Some(DEFAULT_PORT),
                target_base: Some(DEFAULT_TARGET_BASE.to_owned()),
            },
            endpoints: Vec::new(),
        }
    }
}

} // verus!
