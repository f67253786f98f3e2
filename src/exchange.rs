use vstd::prelude::*;

use crate::config::{opt_view, proxies_of, Config, DEFAULT_PORT, DEFAULT_TARGET_BASE};
use crate::fault::Fault;
use crate::headers::{forward_headers, forwarded};
use crate::path::{api_root, extract_path, rewrite};
use crate::transport::{create_clients, proxy_accepts, ConfigurationError, TransportPool};

verus! {

/// A character allowed in an HTTP method token.
pub open spec fn is_tchar(c: char) -> bool {
    ||| ('a' <= c && c <= 'z')
    ||| ('A' <= c && c <= 'Z')
    ||| ('0' <= c && c <= '9')
    ||| c == '!' || c == '#' || c == '$' || c == '%' || c == '&' || c == '\'' || c == '*'
    ||| c == '+' || c == '-' || c == '.' || c == '^' || c == '_' || c == '`' || c == '|'
    ||| c == '~'
}

/// `m` is a method token that can be sent on as it is.
pub open spec fn is_method_token(m: Seq<char>) -> bool {
    m.len() > 0 && forall|i: int| 0 <= i < m.len() ==> is_tchar(#[trigger] m[i])
}

fn tchar(c: char) -> (r: bool)
    ensures
        r == is_tchar(c),
{
    ('a' <= c && c <= 'z') || ('A' <= c && c <= 'Z') || ('0' <= c && c <= '9') || c == '!' || c
        == '#' || c == '$' || c == '%' || c == '&' || c == '\'' || c == '*' || c == '+' || c
        == '-' || c == '.' || c == '^' || c == '_' || c == '`' || c == '|' || c == '~'
}

/// The method to send upstream: the inbound one unchanged, never replaced by
/// another; a method that is not a token is not supported.
pub fn outbound_method(method: &str) -> (r: Result<String, Fault>)
    ensures
        match r {
            Ok(m) => is_method_token(method@) && m@ == method@,
            Err(f) => !is_method_token(method@) && f == Fault::MethodNotSupported,
        },
{
    let n = method.unicode_len();
    if n == 0 {
        return Err(Fault::MethodNotSupported);
    }
    let mut i: usize = 0;
    while i < n
        invariant
            n == method@.len(),
            i <= n,
            forall|k: int| 0 <= k < i ==> is_tchar(#[trigger] method@[k]),
        decreases n - i,
    {
        if !tchar(method.get_char(i)) {
            return Err(Fault::MethodNotSupported);
        }
        i = i + 1;
    }
    Ok(method.to_owned())
}

/// `path` is `/{prefix}/v1` or `/{prefix}/v1/...` for the single segment `prefix`.
pub open spec fn routes_to(path: Seq<char>, prefix: Seq<char>) -> bool {
    let root = api_root(prefix);
    &&& prefix.len() > 0
    &&& !prefix.contains('/')
    &&& root.is_prefix_of(path)
    &&& (path.len() == root.len() || path[root.len() as int] == '/')
}

/// The prefix that `path` is routed under; a path of no route is not found.
pub fn route_prefix(path: &str) -> (r: Result<String, Fault>)
    ensures
        match r {
            Ok(p) => routes_to(path@, p@) && forall|q: Seq<char>|
                #![trigger routes_to(path@, q)]
                routes_to(path@, q) ==> q == p@,
            Err(f) => f == Fault::NotFound && forall|p: Seq<char>| !routes_to(path@, p),
        },
{
    let n = path.unicode_len();
    if n == 0 || path.get_char(0) != '/' {
        proof {
            assert forall|p: Seq<char>| !routes_to(path@, p) by {
                if routes_to(path@, p) {
                    let root = api_root(p);
                    assert(root[0] == '/');
                    assert(path@.subrange(0, root.len() as int)[0] == path@[0]);
                }
            }
        }
        return Err(Fault::NotFound);
    }
    let mut j: usize = 1;
    while j < n && path.get_char(j) != '/'
        invariant
            n == path@.len(),
            1 <= j <= n,
            forall|k: int| 1 <= k < j ==> #[trigger] path@[k] != '/',
        decreases n - j,
    {
        j = j + 1;
    }
    let seg = path.substring_char(1, j);
    let ghost s = seg@;
    proof {
        assert forall|p: Seq<char>| #[trigger] routes_to(path@, p) implies p == s by {
            let root = api_root(p);
            let m: int = p.len() as int;
            assert(root.len() == m + 4);
            assert forall|k: int| 0 <= k < p.len() implies p[k] == path@[k + 1] by {
                assert(root[k + 1] == p[k]);
                assert(path@.subrange(0, root.len() as int)[k + 1] == path@[k + 1]);
            }
            assert(root[m + 1] == '/');
            assert(path@.subrange(0, root.len() as int)[m + 1] == path@[m + 1]);
            if m + 1 < j {
                assert(path@[m + 1] != '/');
            }
            if m + 1 > j {
                assert(p[j - 1] == path@[j as int]);
                assert(!p.contains('/'));
                assert(p[j - 1] != '/');
            }
            assert(p =~= s);
        }
    }
    let has_root = j > 1 && n >= 3 && j <= n - 3 && path.get_char(j) == '/' && path.get_char(j + 1) == 'v'
        && path.get_char(j + 2) == '1' && (j + 3 == n || path.get_char(j + 3) == '/');
    if !has_root {
        proof {
            assert forall|p: Seq<char>| !routes_to(path@, p) by {
                if routes_to(path@, p) {
                    let root = api_root(p);
                    assert(p == s);
                    assert(root.len() == j + 3);
                    assert(root[j as int] == '/' && root[j + 1] == 'v' && root[j + 2] == '1');
                    assert(path@.subrange(0, root.len() as int)[j as int] == path@[j as int]);
                    assert(path@.subrange(0, root.len() as int)[j + 1] == path@[j + 1]);
                    assert(path@.subrange(0, root.len() as int)[j + 2] == path@[j + 2]);
                }
            }
        }
        return Err(Fault::NotFound);
    }
    let prefix = seg.to_owned();
    proof {
        let root = api_root(s);
        assert(root.len() == j + 3);
        assert(!s.contains('/')) by {
            assert forall|k: int| 0 <= k < s.len() implies s[k] != '/' by {
                assert(s[k] == path@[k + 1]);
            }
        }
        assert(root =~= path@.subrange(0, root.len() as int));
    }
    Ok(prefix)
}

/// An outbound request, ready to be sent on the transport at `slot`.
#[derive(Debug)]
pub struct OutboundRequest {
    pub method: String,
    pub url: String,
    pub headers: Vec<(String, String)>,
    pub body: Option<Vec<u8>>,
    pub slot: usize,
}

impl OutboundRequest {
    /// Attaches the inbound body, read in full; an empty body attaches none,
    /// and a body that could not be read (`None`) ends the exchange.
    pub fn with_body(self, body: Option<Vec<u8>>) -> (r: Result<OutboundRequest, Fault>)
        ensures
            match body {
                None => r == Err::<OutboundRequest, Fault>(Fault::InternalError),
                Some(b) => r is Ok && ({
                    let o = r.unwrap();
                    &&& o.method == self.method
                    &&& o.url == self.url
                    &&& o.headers == self.headers
                    &&& o.slot == self.slot
                    &&& o.body == (if b@.len() == 0 {
                        None
                    } else {
                        Some(b)
                    })
                }),
            },
    {
        match body {
            None => Err(Fault::InternalError),
            Some(b) => {
                let body = if b.len() == 0 {
                    None
                } else {
                    Some(b)
                };
                Ok(OutboundRequest {
                    method: self.method,
                    url: self.url,
                    headers: self.headers,
                    body,
                    slot: self.slot,
                })
            },
        }
    }
}

/// What the upstream gave back.
#[derive(Debug)]
pub struct UpstreamResponse {
    pub status: u16,
    pub headers: Vec<(String, Vec<u8>)>,
    pub body: Vec<u8>,
}

/// How sending the outbound request ended.
pub enum UpstreamReply {
    /// The request could not be sent or got no response (connection, DNS, timeout).
    Unreachable,
    /// A response came, but its body could not be read.
    BodyUnreadable,
    /// A complete response.
    Received(UpstreamResponse),
}

/// The response relayed to the inbound client.
#[derive(Debug)]
pub struct InboundResponse {
    pub status: u16,
    pub headers: Vec<(String, Vec<u8>)>,
    pub body: Vec<u8>,
}

/// Ends an exchange on the upstream's reply: a complete response is relayed
/// with its status, headers and body unchanged.
pub fn conclude(reply: UpstreamReply) -> (r: Result<InboundResponse, Fault>)
    ensures
        match reply {
            UpstreamReply::Unreachable => r == Err::<InboundResponse, Fault>(Fault::BadGateway),
            UpstreamReply::BodyUnreadable => r == Err::<InboundResponse, Fault>(
                Fault::InternalError,
            ),
            UpstreamReply::Received(u) => r is Ok && r.unwrap().status == u.status
                && r.unwrap().headers == u.headers && r.unwrap().body == u.body,
        },
{
    match reply {
        UpstreamReply::Unreachable => Err(Fault::BadGateway),
        UpstreamReply::BodyUnreadable => Err(Fault::InternalError),
        UpstreamReply::Received(u) => Ok(
            InboundResponse { status: u.status, headers: u.headers, body: u.body },
        ),
    }
}

/// The routing engine of one configuration snapshot.
pub struct ProxyService {
    pub clients: TransportPool,
    pub config: Config,
}

pub open spec fn query_part(query: Option<Seq<char>>) -> Seq<char> {
    match query {
        Some(q) => seq!['?'] + q,
        None => Seq::empty(),
    }
}

pub open spec fn str_opt_view(o: Option<&str>) -> Option<Seq<char>> {
    match o {
        Some(s) => Some(s@),
        None => None,
    }
}

impl ProxyService {
    pub open spec fn wf(&self) -> bool {
        self.clients.wf()
    }

    /// The upstream base for `prefix`, falling back to the well-known origin.
    pub open spec fn base_spec(&self, prefix: Seq<char>) -> Seq<char> {
        match self.config.target_base_spec(prefix) {
            Some(b) => b,
            None => DEFAULT_TARGET_BASE@,
        }
    }

    /// `o` is the outbound request for an inbound one under `prefix` whose
    /// path is rewritten: same method, upstream URL from the prefix's base,
    /// the rewritten path and the query, headers but `Host`, no body yet, and
    /// the prefix's transport.
    pub open spec fn prepared(
        &self,
        prefix: Seq<char>,
        path: Seq<char>,
        query: Option<Seq<char>>,
        method: Seq<char>,
        headers: Seq<(String, Option<String>)>,
        o: OutboundRequest,
    ) -> bool {
        &&& o.method@ == method
        &&& o.url@ == self.base_spec(prefix) + rewrite(path, prefix).unwrap() + query_part(query)
        &&& o.headers.deep_view() == forwarded(headers)
        &&& o.body is None
        &&& o.slot as int == self.clients.slot_spec(prefix)
    }

    /// A routing engine for `config`, with its transports built up front.
    pub fn new_with_config(config: Config) -> (r: Result<ProxyService, ConfigurationError>)
        requires
            config.wf(),
        ensures
            match r {
                Ok(s) => s.config == config && s.clients.built_from(&config),
                Err(ConfigurationError::InvalidProxy(prefix)) => exists|i: int|
                    0 <= i < proxies_of(config.endpoints@).len() && #[trigger] proxies_of(
                        config.endpoints@,
                    )[i].0 == prefix@ && !proxy_accepts(proxies_of(config.endpoints@)[i].1),
                Err(ConfigurationError::Transport) => true,
            },
            (exists|i: int|
                0 <= i < proxies_of(config.endpoints@).len() && !proxy_accepts(
                    #[trigger] proxies_of(config.endpoints@)[i].1,
                )) ==> r is Err,
    {
        match create_clients(&config) {
            Ok(clients) => Ok(ProxyService { clients, config }),
            Err(e) => Err(e),
        }
    }

    /// A routing engine for the default configuration: no routes, one direct transport.
    pub fn new() -> (r: Result<ProxyService, ConfigurationError>)
        ensures
            r matches Ok(s) ==> s.config.endpoints@.len() == 0 && s.clients.built_from(&s.config)
                && s.clients.entries@.len() == 1 && opt_view(s.config.server.target_base) == Some(
                DEFAULT_TARGET_BASE@,
            ) && s.config.server.port == Some(DEFAULT_PORT),
            !(r matches Err(ConfigurationError::InvalidProxy(_))),
    {
        let config = Config::default();
        let r = Self::new_with_config(config);
        proof {
            if r is Ok {
                let s = r.unwrap();
                let ps = proxies_of(s.config.endpoints@);
                assert(ps.len() == 0);
                assert(s.clients.entries@.len() <= 1) by {
                    if s.clients.entries@.len() > 1 {
                        let e = s.clients.entries@;
                        assert(e[0].key@ == crate::transport::default_key());
                        assert(e[1].key@ == crate::transport::default_key());
                    }
                }
            }
        }
        r
    }

    /// The upstream base for `prefix`: the configured one, else the well-known origin.
    pub fn target_base(&self, prefix: &str) -> (r: String)
        ensures
            r@ == self.base_spec(prefix@),
    {
        match self.config.get_endpoint_target_base(prefix) {
            Some(b) => b,
            None => DEFAULT_TARGET_BASE.to_owned(),
        }
    }

    /// Builds the outbound request for an inbound one under `prefix`, before
    /// its body is read: the path is checked and rewritten, the method kept,
    /// headers but `Host` copied, and the transport chosen.
    pub fn prepare(
        &self,
        prefix: &str,
        path: &str,
        query: Option<&str>,
        method: &str,
        headers: &Vec<(String, Option<String>)>,
    ) -> (r: Result<OutboundRequest, Fault>)
        requires
            self.wf(),
        ensures
            rewrite(path@, prefix@) is None ==> r == Err::<OutboundRequest, Fault>(
                Fault::BadRequest,
            ),
            rewrite(path@, prefix@) is Some && !is_method_token(method@) ==> r == Err::<
                OutboundRequest,
                Fault,
            >(Fault::MethodNotSupported),
            rewrite(path@, prefix@) is Some && is_method_token(method@) ==> r is Ok
                && self.prepared(prefix@, path@, str_opt_view(query), method@, headers@, r.unwrap()),
    {
        let rewritten = match extract_path(path, prefix) {
            Ok(p) => p,
            Err(f) => {
                return Err(f);
            },
        };
        let method = match outbound_method(method) {
            Ok(m) => m,
            Err(f) => {
                return Err(f);
            },
        };
        let mut url = self.target_base(prefix);
        url.append(rewritten.as_str());
        if let Some(q) = query {
            url.append("?");
            url.append(q);
            proof {
                reveal_strlit("?");
            }
        }
        assert(url@ =~= self.base_spec(prefix@) + rewrite(path@, prefix@).unwrap() + query_part(
            str_opt_view(query),
        ));
        Ok(OutboundRequest {
            method,
            url,
            headers: forward_headers(headers),
            body: None,
            slot: self.clients.slot_for(prefix),
        })
    }

    /// Routes an inbound request by its path: finds its prefix (not found when
    /// the path has none) and prepares the outbound request under it.
    pub fn dispatch(
        &self,
        path: &str,
        query: Option<&str>,
        method: &str,
        headers: &Vec<(String, Option<String>)>,
    ) -> (r: Result<(String, OutboundRequest), Fault>)
        requires
            self.wf(),
        ensures
            (forall|p: Seq<char>| !routes_to(path@, p)) ==> r == Err::<
                (String, OutboundRequest),
                Fault,
            >(Fault::NotFound),
            forall|p: Seq<char>|
                #![trigger routes_to(path@, p)]
                routes_to(path@, p) && !is_method_token(method@) ==> r == Err::<
                    (String, OutboundRequest),
                    Fault,
                >(Fault::MethodNotSupported),
            forall|p: Seq<char>|
                #![trigger routes_to(path@, p)]
                routes_to(path@, p) && is_method_token(method@) ==> r is Ok && r.unwrap().0@ == p
                    && self.prepared(
                    p,
                    path@,
                    str_opt_view(query),
                    method@,
                    headers@,
                    r.unwrap().1,
                ),
    {
        let prefix = match route_prefix(path) {
            Ok(p) => p,
            Err(f) => {
                return Err(f);
            },
        };
        match self.prepare(prefix.as_str(), path, query, method, headers) {
            Ok(o) => Ok((prefix, o)),
            Err(f) => Err(f),
        }
    }
}

} // verus!
