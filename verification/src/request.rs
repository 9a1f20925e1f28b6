//! The target template: the immutable, resolved description of the request
//! that every worker repeats.
//!
//! Building a template has three steps: `Request::prepare` parses and checks
//! the target URL (yielding the host and port to resolve), the caller looks
//! the host up (address resolution is a blocking operation and stays outside
//! the verified core), and `PendingTemplate::resolve` picks the address and
//! completes the template.

use vstd::prelude::*;
use crate::text::{check_header_value, str_eq, valid_header_value};

verus! {

/// Transport scheme of the target: plain HTTP or HTTP over TLS.
///
/// The TLS context itself (which deliberately skips certificate and hostname
/// verification and restricts negotiation to HTTP/1.1) lives outside the
/// verified core; here only the choice of scheme is modelled.
#[derive(Clone, Copy, Debug, PartialEq, Eq, Structural)]
pub enum Scheme {
    Http,
    Https,
}

impl Scheme {
    /// The port used when the target URL does not name one.
    pub fn default_port(&self) -> (port: u16)
        ensures
            port == (if self is Http { 80u16 } else { 443u16 }),
    {
        match self {
            Scheme::Http => 80,
            Scheme::Https => 443,
        }
    }
}

/// A resolved socket address, as plain data.
#[derive(Clone, Copy, Debug)]
pub enum SockAddr {
    V4 { octets: [u8; 4], port: u16 },
    V6 { segments: [u16; 8], port: u16, flowinfo: u32, scope_id: u32 },
}

impl SockAddr {
    pub fn is_ipv4(&self) -> (r: bool)
        ensures
            r == (self is V4),
    {
        match self {
            SockAddr::V4 { .. } => true,
            SockAddr::V6 { .. } => false,
        }
    }
}

/// The address the template uses from a resolution result: the first IPv4
/// address encountered, else the last resolved address.
pub open spec fn selected_addr(s: Seq<SockAddr>) -> SockAddr
    decreases s.len(),
{
    if s.first() is V4 || s.len() <= 1 {
        s.first()
    } else {
        selected_addr(s.drop_first())
    }
}

proof fn lemma_selected_addr_from(s: Seq<SockAddr>, i: int)
    requires
        0 <= i < s.len(),
        forall|j: int| 0 <= j < i ==> !(#[trigger] s[j] is V4),
        s[i] is V4 || i == s.len() - 1,
    ensures
        selected_addr(s) == s[i],
    decreases i,
{
    if i == 0 {
    } else {
        assert(!(s.first() is V4));
        assert(s.len() > 1);
        lemma_selected_addr_from(s.drop_first(), i - 1);
    }
}

/// Pick the template's address out of a resolution result: the first IPv4
/// address if any, else the last address; `None` when resolution yielded
/// nothing.
pub fn select_addr(addrs: &Vec<SockAddr>) -> (r: Option<SockAddr>)
    ensures
        r is Some <==> addrs@.len() > 0,
        r is Some ==> r.unwrap() == selected_addr(addrs@),
{
    let len = addrs.len();
    if len == 0 {
        return None;
    }
    let mut i: usize = 0;
    while i < len - 1
        invariant
            len == addrs@.len(),
            0 < len,
            i < len,
            forall|j: int| 0 <= j < i ==> !(#[trigger] addrs@[j] is V4),
        decreases len - i,
    {
        if addrs[i].is_ipv4() {
            proof {
                lemma_selected_addr_from(addrs@, i as int);
            }
            return Some(addrs[i]);
        }
        i += 1;
    }
    proof {
        lemma_selected_addr_from(addrs@, len as int - 1);
    }
    Some(addrs[len - 1])
}

/// Why a target could not be turned into a template.
#[derive(Clone, Copy, Debug, PartialEq, Eq, Structural)]
pub enum TemplateError {
    /// The target is not a parseable URL, or its host cannot stand in a
    /// `Host` header.
    InvalidUri,
    /// The URL names a scheme that is neither plain HTTP nor HTTP over TLS.
    UnsupportedScheme,
    /// The URL has no authority to take a host from.
    MissingHost,
    /// Address resolution yielded no address.
    ResolutionFailed,
}

impl TemplateError {
    pub open spec fn spec_message(&self) -> Seq<char> {
        match self {
            TemplateError::InvalidUri => "invalid uri"@,
            TemplateError::UnsupportedScheme => "invalid scheme"@,
            TemplateError::MissingHost => "host not present on uri"@,
            TemplateError::ResolutionFailed => "hostname lookup failed"@,
        }
    }

    pub fn message(&self) -> (m: &'static str)
        ensures
            m@ == self.spec_message(),
    {
        match self {
            TemplateError::InvalidUri => "invalid uri",
            TemplateError::UnsupportedScheme => "invalid scheme",
            TemplateError::MissingHost => "host not present on uri",
            TemplateError::ResolutionFailed => "hostname lookup failed",
        }
    }
}

/// What the URL parser reports of a target: its scheme, host and port, when
/// present.
pub struct UrlParts {
    pub scheme: Option<String>,
    pub host: Option<String>,
    pub port: Option<u16>,
}

/// The mathematical value of `UrlParts`.
#[verifier::ext_equal]
pub ghost struct UrlPartsModel {
    pub scheme: Option<Seq<char>>,
    pub host: Option<Seq<char>>,
    pub port: Option<u16>,
}

impl View for UrlParts {
    type V = UrlPartsModel;

    open spec fn view(&self) -> UrlPartsModel {
        UrlPartsModel {
            scheme: match self.scheme {
                Some(s) => Some(s@),
                None => None,
            },
            host: match self.host {
                Some(h) => Some(h@),
                None => None,
            },
            port: self.port,
        }
    }
}

/// The outcome of URL parsing, a function of the target string alone:
/// `None` for a malformed URL, otherwise the URL's scheme, host and port.
pub uninterp spec fn url_parts_of(s: Seq<char>) -> Option<UrlPartsModel>;

/// Relies on `http::Uri::try_from` and the accessors `Uri::scheme_str`,
/// `Authority::host` and `Authority::port_u16`: parsing is a deterministic
/// function of the URL string, named here by `url_parts_of`.
#[verifier::external_body]
fn parse_url(target: &str) -> (r: Option<UrlParts>)
    ensures
        r is Some <==> url_parts_of(target@) is Some,
        r is Some ==> r.unwrap()@ == url_parts_of(target@).unwrap(),
{
    match http::Uri::try_from(target) {
        Err(_) => None,
        Ok(uri) => {
            let scheme = uri.scheme_str().map(|s| s.to_string());
            let (host, port) = match uri.authority() {
                None => (None, None),
                Some(a) => (Some(a.host().to_string()), a.port_u16()),
            };
            Some(UrlParts { scheme, host, port })
        },
    }
}

/// The scheme a URL's scheme name denotes: absent defaults to plain HTTP;
/// anything but `http` and `https` is unsupported.
pub open spec fn scheme_of_name(name: Option<Seq<char>>) -> Option<Scheme> {
    match name {
        None => Some(Scheme::Http),
        Some(n) => if n == "http"@ {
            Some(Scheme::Http)
        } else if n == "https"@ {
            Some(Scheme::Https)
        } else {
            None
        },
    }
}

/// The host actually used: an empty host defaults to `localhost`.
pub open spec fn effective_host(h: Seq<char>) -> Seq<char> {
    if h.len() == 0 {
        "localhost"@
    } else {
        h
    }
}

/// A template checked and split, waiting only for its host to be resolved.
#[derive(Debug)]
pub struct PendingTemplate {
    pub scheme: Scheme,
    pub host: String,
    pub port: u16,
    pub host_header: String,
    pub uri: String,
    pub method: String,
    pub headers: Vec<(String, String)>,
    pub body: Vec<u8>,
}

/// The immutable, resolved description of the request every worker repeats.
#[derive(Clone, Debug)]
pub struct Request {
    pub addr: SockAddr,
    pub scheme: Scheme,
    pub host: String,
    pub host_header: String,
    pub uri: String,
    pub method: String,
    pub headers: Vec<(String, String)>,
    pub body: Vec<u8>,
}

/// Everything `prepare` checks of a target; `prepare` returns `Ok` exactly
/// when this holds.
pub open spec fn target_accepted(target: Seq<char>) -> bool {
    &&& url_parts_of(target) is Some
    &&& scheme_of_name(url_parts_of(target).unwrap().scheme) is Some
    &&& url_parts_of(target).unwrap().host is Some
    &&& valid_header_value(effective_host(url_parts_of(target).unwrap().host.unwrap()))
}

impl Request {
    /// Parse and check the target URL and assemble everything of the template
    /// that does not need address resolution.
    pub fn prepare(
        target: &str,
        method: String,
        headers: Vec<(String, String)>,
        body: Vec<u8>,
    ) -> (r: Result<PendingTemplate, TemplateError>)
        ensures
            r is Ok <==> target_accepted(target@),
            r is Ok ==> {
                let t = r.unwrap();
                let parts = url_parts_of(target@).unwrap();
                &&& t.scheme == scheme_of_name(parts.scheme).unwrap()
                &&& t.host@ == effective_host(parts.host.unwrap())
                &&& t.host_header@ == t.host@
                &&& t.port == (match parts.port {
                    Some(p) => p,
                    None => (if t.scheme is Http { 80u16 } else { 443u16 }),
                })
                &&& t.uri@ == target@
                &&& t.method == method
                &&& t.headers == headers
                &&& t.body == body
            },
            r == Err::<PendingTemplate, TemplateError>(TemplateError::InvalidUri) <==> (
            url_parts_of(target@) is None || (url_parts_of(target@) is Some && scheme_of_name(
                url_parts_of(target@).unwrap().scheme,
            ) is Some && url_parts_of(target@).unwrap().host is Some && !valid_header_value(
                effective_host(url_parts_of(target@).unwrap().host.unwrap()),
            ))),
            r == Err::<PendingTemplate, TemplateError>(TemplateError::UnsupportedScheme) <==> (
            url_parts_of(target@) is Some && scheme_of_name(
                url_parts_of(target@).unwrap().scheme,
            ) is None),
            r == Err::<PendingTemplate, TemplateError>(TemplateError::MissingHost) <==> (
            url_parts_of(target@) is Some && scheme_of_name(
                url_parts_of(target@).unwrap().scheme,
            ) is Some && url_parts_of(target@).unwrap().host is None),
    {
        let parts = match parse_url(target) {
            None => {
                return Err(TemplateError::InvalidUri);
            },
            Some(p) => p,
        };
        let scheme = match &parts.scheme {
            None => Scheme::Http,
            Some(name) => {
                if str_eq(name.as_str(), "http") {
                    Scheme::Http
                } else if str_eq(name.as_str(), "https") {
                    Scheme::Https
                } else {
                    return Err(TemplateError::UnsupportedScheme);
                }
            },
        };
        let host = match parts.host {
            None => {
                return Err(TemplateError::MissingHost);
            },
            Some(h) => {
                if h.as_str().unicode_len() == 0 {
                    proof {
                        assert(h@ =~= Seq::<char>::empty());
                    }
                    String::from_str("localhost")
                } else {
                    h
                }
            },
        };
        if !check_header_value(host.as_str()) {
            return Err(TemplateError::InvalidUri);
        }
        let port = match parts.port {
            Some(p) => p,
            None => scheme.default_port(),
        };
        let host_header = host.clone();
        Ok(
            PendingTemplate {
                scheme,
                host,
                port,
                host_header,
                uri: target.to_owned(),
                method,
                headers,
                body,
            },
        )
    }
}

impl PendingTemplate {
    /// Complete the template with the outcome of resolving `host:port`:
    /// pick the preferred address, or fail when resolution yielded nothing.
    pub fn resolve(self, addrs: &Vec<SockAddr>) -> (r: Result<Request, TemplateError>)
        ensures
            r is Ok <==> addrs@.len() > 0,
            r is Ok ==> {
                let t = r.unwrap();
                &&& t.addr == selected_addr(addrs@)
                &&& t.scheme == self.scheme
                &&& t.host == self.host
                &&& t.host_header == self.host_header
                &&& t.uri == self.uri
                &&& t.method == self.method
                &&& t.headers == self.headers
                &&& t.body == self.body
            },
            r is Err ==> r == Err::<Request, TemplateError>(TemplateError::ResolutionFailed),
    {
        match select_addr(addrs) {
            None => Err(TemplateError::ResolutionFailed),
            Some(addr) => Ok(
                Request {
                    addr,
                    scheme: self.scheme,
                    host: self.host,
                    host_header: self.host_header,
                    uri: self.uri,
                    method: self.method,
                    headers: self.headers,
                    body: self.body,
                },
            ),
        }
    }
}

} // verus!
