//! Server endpoints: a URL taken apart into plain values, and the connection
//! settings that its scheme, host and query parameters select.
use vstd::prelude::*;
use vstd::string::StringSliceAdditionalSpecFns;

use crate::error::{ClientError, MemcacheError};
use crate::text::{bytes_equal, copy_range, parse_u64, parsed_u64};

verus! {

/// An endpoint URL as plain values.
pub struct EndpointView {
    pub scheme: Seq<u8>,
    pub host: Option<Seq<u8>>,
    pub port: Option<u16>,
    pub path: Seq<u8>,
    pub query: Seq<(Seq<u8>, Seq<u8>)>,
    pub username: Seq<u8>,
    pub password: Option<Seq<u8>>,
}

/// The parts of an endpoint URL, in the form the URL parser gives them:
/// scheme, host, port, path, decoded query pairs in order, and user info.
#[derive(Debug, Clone)]
pub struct Endpoint {
    pub scheme: Vec<u8>,
    pub host: Option<Vec<u8>>,
    pub port: Option<u16>,
    pub path: Vec<u8>,
    pub query: Vec<(Vec<u8>, Vec<u8>)>,
    pub username: Vec<u8>,
    pub password: Option<Vec<u8>>,
}

pub open spec fn opt_bytes(o: Option<Vec<u8>>) -> Option<Seq<u8>> {
    match o {
        Some(v) => Some(v@),
        None => None,
    }
}

impl View for Endpoint {
    type V = EndpointView;

    open spec fn view(&self) -> EndpointView {
        EndpointView {
            scheme: self.scheme@,
            host: opt_bytes(self.host),
            port: self.port,
            path: self.path@,
            query: self.query@.map_values(|p: (Vec<u8>, Vec<u8>)| p@),
            username: self.username@,
            password: opt_bytes(self.password),
        }
    }
}

/// The parts that the URL parser finds in `s`; `None` where it refuses `s`.
pub uninterp spec fn url_parts(s: Seq<char>) -> Option<EndpointView>;

/// Relies on `url::Url::parse` and the `Url` accessors `scheme`, `host_str`,
/// `port`, `path`, `query_pairs`, `username` and `password`: what they give
/// depends on the text of the URL alone.
#[verifier::external_body]
fn parse_url(s: &str) -> (r: Result<Endpoint, String>)
    ensures
        match url_parts(s@) {
            Some(v) => r matches Ok(e) && e@ == v,
            None => r is Err,
        },
{
    let u = url::Url::parse(s).map_err(|e| e.to_string())?;
    let bytes = |t: &str| t.as_bytes().to_vec();
    Ok(Endpoint {
        scheme: bytes(u.scheme()),
        host: u.host_str().map(bytes),
        port: u.port(),
        path: bytes(u.path()),
        query: u.query_pairs().map(|(k, v)| (bytes(&k), bytes(&v))).collect(),
        username: bytes(u.username()),
        password: u.password().map(bytes),
    })
}

/// The transports an endpoint can select.
#[derive(Debug, Clone, Copy, PartialEq, Eq)]
pub enum Transport {
    Tcp,
    Udp,
    Unix,
    Tls,
}

/// The TLS options of an endpoint.
#[derive(Debug, Clone, PartialEq, Eq)]
pub struct TlsOptions {
    /// Whether the peer's certificate is verified (`verify_mode=none` turns it off).
    pub verify_peer: bool,
    pub ca_path: Option<Vec<u8>>,
    pub key_path: Option<Vec<u8>>,
    pub cert_path: Option<Vec<u8>>,
}

/// How to connect to an endpoint.
#[derive(Debug, Clone, PartialEq, Eq)]
pub struct Settings {
    pub transport: Transport,
    /// The host; empty for a local socket.
    pub host: Vec<u8>,
    pub port: Option<u16>,
    /// The socket path of a local socket.
    pub path: Vec<u8>,
    /// Whether Nagle's algorithm is turned off on TCP.
    pub nodelay: bool,
    /// Read and write timeout in seconds.
    pub timeout: Option<u64>,
    /// Whether the text protocol is used; the binary one is the default.
    pub ascii: bool,
    pub tls: TlsOptions,
    /// User name and password to authenticate with after connecting.
    pub credentials: Option<(Vec<u8>, Vec<u8>)>,
}

/// The value of the first query parameter named `name` from index `i` on.
pub open spec fn param_from(q: Seq<(Seq<u8>, Seq<u8>)>, name: Seq<u8>, i: nat) -> Option<Seq<u8>>
    decreases q.len() - i,
{
    if i >= q.len() {
        None
    } else if q[i as int].0 == name {
        Some(q[i as int].1)
    } else {
        param_from(q, name, i + 1)
    }
}

/// The value of the first query parameter named `name`.
pub open spec fn param(q: Seq<(Seq<u8>, Seq<u8>)>, name: Seq<u8>) -> Option<Seq<u8>> {
    param_from(q, name, 0)
}

/// Some query parameter is `name=value`.
pub open spec fn has_pair(q: Seq<(Seq<u8>, Seq<u8>)>, name: Seq<u8>, value: Seq<u8>) -> bool {
    exists|i: int| 0 <= i < q.len() && #[trigger] q[i] == (name, value)
}

pub open spec fn valid_scheme(s: Seq<u8>) -> bool {
    s == "memcache".spec_bytes() || s == "memcache+udp".spec_bytes() || s
        == "memcache+tls".spec_bytes()
}

/// The transport that an endpoint selects: datagrams by scheme or by
/// `udp=true`, TLS by scheme, a local socket where there is neither host nor
/// port, and TCP otherwise.
pub open spec fn transport_of(e: EndpointView) -> Transport {
    if e.scheme == "memcache+udp".spec_bytes() || has_pair(
        e.query,
        "udp".spec_bytes(),
        "true".spec_bytes(),
    ) {
        Transport::Udp
    } else if e.scheme == "memcache+tls".spec_bytes() {
        Transport::Tls
    } else if (e.host is None || e.host.unwrap().len() == 0) && e.port is None {
        Transport::Unix
    } else {
        Transport::Tcp
    }
}

/// The read and write timeout that `timeout=<seconds>` asks for; a value that
/// is not a number asks for none.
pub open spec fn timeout_of(e: EndpointView) -> Option<u64> {
    match param(e.query, "timeout".spec_bytes()) {
        Some(v) => parsed_u64(v),
        None => None,
    }
}

/// `settings` is what the endpoint `e` selects.
pub open spec fn selects(e: EndpointView, st: Settings) -> bool {
    &&& st.transport == transport_of(e)
    &&& st.host@ == (if e.host is Some {
        e.host.unwrap()
    } else {
        Seq::empty()
    })
    &&& st.port == e.port
    &&& st.path@ == e.path
    &&& st.nodelay == !has_pair(e.query, "tcp_nodelay".spec_bytes(), "false".spec_bytes())
    &&& st.timeout == timeout_of(e)
    &&& st.ascii == (param(e.query, "protocol".spec_bytes()) == Some("ascii".spec_bytes()))
    &&& st.tls.verify_peer == !has_pair(e.query, "verify_mode".spec_bytes(), "none".spec_bytes())
    &&& opt_bytes(st.tls.ca_path) == param(e.query, "ca_path".spec_bytes())
    &&& opt_bytes(st.tls.key_path) == param(e.query, "key_path".spec_bytes())
    &&& opt_bytes(st.tls.cert_path) == param(e.query, "cert_path".spec_bytes())
    &&& match st.credentials {
        Some((u, p)) => e.username.len() > 0 && u@ == e.username && p@ == (if e.password is Some {
            e.password.unwrap()
        } else {
            Seq::empty()
        }),
        None => e.username.len() == 0,
    }
}

fn find_param(q: &Vec<(Vec<u8>, Vec<u8>)>, name: &[u8]) -> (r: Option<Vec<u8>>)
    ensures
        opt_bytes(r) == param(q@.map_values(|p: (Vec<u8>, Vec<u8>)| p@), name@),
{
    let ghost qv = q@.map_values(|p: (Vec<u8>, Vec<u8>)| p@);
    let mut i: usize = 0;
    while i < q.len()
        invariant
            i <= q@.len(),
            qv == q@.map_values(|p: (Vec<u8>, Vec<u8>)| p@),
            param(qv, name@) == param_from(qv, name@, i as nat),
        decreases q@.len() - i,
    {
        assert(qv[i as int] == q@[i as int]@);
        if bytes_equal(q[i].0.as_slice(), name) {
            let v = copy_range(q[i].1.as_slice(), 0, q[i].1.len());
            assert(q@[i as int].1@.subrange(0, q@[i as int].1@.len() as int) =~= q@[i as int].1@);
            return Some(v);
        }
        i = i + 1;
    }
    None
}

fn find_pair(q: &Vec<(Vec<u8>, Vec<u8>)>, name: &[u8], value: &[u8]) -> (r: bool)
    ensures
        r == has_pair(q@.map_values(|p: (Vec<u8>, Vec<u8>)| p@), name@, value@),
{
    let ghost qv = q@.map_values(|p: (Vec<u8>, Vec<u8>)| p@);
    let mut i: usize = 0;
    while i < q.len()
        invariant
            i <= q@.len(),
            qv == q@.map_values(|p: (Vec<u8>, Vec<u8>)| p@),
            forall|j: int| 0 <= j < i ==> #[trigger] qv[j] != (name@, value@),
        decreases q@.len() - i,
    {
        assert(qv[i as int] == q@[i as int]@);
        if bytes_equal(q[i].0.as_slice(), name) && bytes_equal(q[i].1.as_slice(), value) {
            return true;
        }
        i = i + 1;
    }
    false
}

fn copy_opt(o: &Option<Vec<u8>>) -> (r: Vec<u8>)
    ensures
        r@ == (if o is Some {
            o.unwrap()@
        } else {
            Seq::<u8>::empty()
        }),
{
    match o {
        Some(v) => {
            let c = copy_range(v.as_slice(), 0, v.len());
            assert(v@.subrange(0, v@.len() as int) =~= v@);
            c
        },
        None => Vec::new(),
    }
}

impl Endpoint {
    /// Takes an endpoint URL apart; a URL that does not parse is a client
    /// error that carries the parser's message.
    pub fn parse(url: &str) -> (r: Result<Endpoint, MemcacheError>)
        ensures
            match url_parts(url@) {
                Some(v) => r matches Ok(e) && e@ == v,
                None => r matches Err(MemcacheError::ClientError(ClientError::Error(_))),
            },
    {
        match parse_url(url) {
            Ok(e) => Ok(e),
            Err(m) => Err(MemcacheError::ClientError(ClientError::Error(m))),
        }
    }

    /// The connection settings that this endpoint selects. A scheme other
    /// than `memcache`, `memcache+udp` or `memcache+tls` is a client error.
    pub fn settings(&self) -> (r: Result<Settings, MemcacheError>)
        ensures
            valid_scheme(self@.scheme) <==> r is Ok,
            !valid_scheme(self@.scheme) ==> r matches Err(
                MemcacheError::ClientError(ClientError::Error(_)),
            ),
            r matches Ok(st) ==> selects(self@, st),
    {
        let scheme = self.scheme.as_slice();
        let is_plain = bytes_equal(scheme, "memcache".as_bytes());
        let is_udp = bytes_equal(scheme, "memcache+udp".as_bytes());
        let is_tls = bytes_equal(scheme, "memcache+tls".as_bytes());
        if !is_plain && !is_udp && !is_tls {
            return Err(
                MemcacheError::ClientError(
                    ClientError::Error("memcache URL should start with 'memcache://'".to_owned()),
                ),
            );
        }
        let q = &self.query;
        let no_host = match &self.host {
            None => true,
            Some(h) => h.len() == 0,
        };
        let transport = if is_udp || find_pair(q, "udp".as_bytes(), "true".as_bytes()) {
            Transport::Udp
        } else if is_tls {
            Transport::Tls
        } else if no_host && self.port.is_none() {
            Transport::Unix
        } else {
            Transport::Tcp
        };
        let timeout = match find_param(q, "timeout".as_bytes()) {
            Some(v) => parse_u64(v.as_slice()),
            None => None,
        };
        let ascii = match find_param(q, "protocol".as_bytes()) {
            Some(v) => bytes_equal(v.as_slice(), "ascii".as_bytes()),
            None => false,
        };
        let tls = TlsOptions {
            verify_peer: !find_pair(q, "verify_mode".as_bytes(), "none".as_bytes()),
            ca_path: find_param(q, "ca_path".as_bytes()),
            key_path: find_param(q, "key_path".as_bytes()),
            cert_path: find_param(q, "cert_path".as_bytes()),
        };
        let credentials = if self.username.len() > 0 {
            let u = copy_range(self.username.as_slice(), 0, self.username.len());
            assert(self.username@.subrange(0, self.username@.len() as int) =~= self.username@);
            Some((u, copy_opt(&self.password)))
        } else {
            None
        };
        let st = Settings {
            transport,
            host: copy_opt(&self.host),
            port: self.port,
            path: copy_range(self.path.as_slice(), 0, self.path.len()),
            nodelay: !find_pair(q, "tcp_nodelay".as_bytes(), "false".as_bytes()),
            timeout,
            ascii,
            tls,
            credentials,
        };
        assert(self.path@.subrange(0, self.path@.len() as int) =~= self.path@);
        Ok(st)
    }
}

} // verus!
