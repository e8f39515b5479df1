use vstd::prelude::*;

verus! {

/// The options of the HTTP client.
#[derive(Clone, Debug, PartialEq, Eq)]
pub struct ClientOptions {
    pub noproxy_hosts: Vec<String>,
    pub insecure: bool,
    pub redirect: Redirect,
    pub http_proxy: Option<String>,
    pub https_proxy: Option<String>,
    pub all_proxy: Option<String>,
}

/// Whether and how far redirections are followed.
#[derive(Clone, Copy, Debug, PartialEq, Eq)]
pub enum Redirect {
    NoRedirect,
    Limited(usize),
    Unlimited,
}

/// An error of the HTTP client, for a URL.
#[derive(Clone, Debug, PartialEq, Eq)]
pub struct HttpError {
    pub url: String,
    pub message: String,
}

/// A proxy: protocol, host and port.
#[derive(Clone, Debug, PartialEq, Eq)]
pub struct Proxy {
    pub protocol: Option<ProxyProtocol>,
    pub host: String,
    pub port: Option<u16>,
}

/// The protocol of a proxy.
#[derive(Clone, Copy, Debug, PartialEq, Eq)]
pub enum ProxyProtocol {
    Http,
    Https,
}

} // verus!
