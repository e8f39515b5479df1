use vstd::prelude::*;

use crate::text::{append_str, lit, push_char, str_eq};

verus! {

/// An HTTP request as the curl client sends it.
#[derive(Clone, Debug, PartialEq, Eq)]
pub struct Request {
    pub method: Method,
    pub url: String,
    pub headers: Vec<Header>,
    pub querystring: Vec<Param>,
    pub form: Vec<Param>,
    pub multipart: Vec<MultipartParam>,
    pub cookies: Vec<RequestCookie>,
    pub body: Vec<u8>,
}

/// An HTTP response as the curl client receives it.
#[derive(Clone, Debug, PartialEq, Eq)]
pub struct Response {
    pub version: Version,
    pub status: u32,
    pub headers: Vec<Header>,
    pub body: Vec<u8>,
}

/// An HTTP method.
#[derive(Clone, Copy, Debug, PartialEq, Eq)]
pub enum Method {
    Get,
    Head,
    Post,
    Put,
    Delete,
    Connect,
    Options,
    Trace,
    Patch,
}

/// An HTTP version.
#[derive(Clone, Copy, Debug, PartialEq, Eq)]
pub enum Version {
    Http10,
    Http11,
    Http2,
}

/// An HTTP header.
#[derive(Clone, Debug, PartialEq, Eq)]
pub struct Header {
    pub name: String,
    pub value: String,
}

/// A query or form parameter.
#[derive(Clone, Debug, PartialEq, Eq)]
pub struct Param {
    pub name: String,
    pub value: String,
}

/// A part of a multipart form.
#[derive(Clone, Debug, PartialEq, Eq)]
pub enum MultipartParam {
    Param(Param),
    FileParam(FileParam),
}

/// A file sent in a multipart form.
#[derive(Clone, Debug, PartialEq, Eq)]
pub struct FileParam {
    pub name: String,
    pub filename: String,
    pub data: Vec<u8>,
    pub content_type: String,
}

/// A cookie sent with a request.
#[derive(Clone, Debug, PartialEq, Eq)]
pub struct RequestCookie {
    pub name: String,
    pub value: String,
}

/// A cookie line of a Netscape cookie file, field by field.
#[derive(Clone, Debug, PartialEq, Eq)]
pub struct Cookie {
    pub domain: String,
    pub include_subdomain: String,
    pub path: String,
    pub https: String,
    pub expires: String,
    pub name: String,
    pub value: String,
}

/// What can go wrong when the client runs a request.
#[derive(Clone, Debug, PartialEq, Eq)]
pub enum HttpError {
    CouldNotResolveProxyName,
    CouldNotResolveHost,
    FailToConnect,
    Timeout,
    TooManyRedirect,
    CouldNotParseResponse,
    SSLCertificate,
    InvalidUrl,
    Other { description: String },
}

/// The name of a method, in capitals.
pub open spec fn method_name(m: Method) -> Seq<char> {
    match m {
        Method::Get => "GET"@,
        Method::Head => "HEAD"@,
        Method::Post => "POST"@,
        Method::Put => "PUT"@,
        Method::Delete => "DELETE"@,
        Method::Connect => "CONNECT"@,
        Method::Options => "OPTIONS"@,
        Method::Trace => "TRACE"@,
        Method::Patch => "PATCH"@,
    }
}

impl Method {
    /// The name of the method, in capitals.
    pub fn to_string(&self) -> (s: String)
        ensures
            s@ == method_name(*self),
    {
        match self {
            Method::Get => lit("GET"),
            Method::Head => lit("HEAD"),
            Method::Post => lit("POST"),
            Method::Put => lit("PUT"),
            Method::Delete => lit("DELETE"),
            Method::Connect => lit("CONNECT"),
            Method::Options => lit("OPTIONS"),
            Method::Trace => lit("TRACE"),
            Method::Patch => lit("PATCH"),
        }
    }
}

impl RequestCookie {
    /// `name=value`.
    pub fn to_string(&self) -> (s: String)
        ensures
            s@ == self.name@ + seq!['='] + self.value@,
    {
        let mut s = self.name.clone();
        push_char(&mut s, '=');
        append_str(&mut s, self.value.as_str());
        s
    }
}

/// The values of the headers named `name` (compared exactly), in order.
pub open spec fn values_named(headers: Seq<Header>, name: Seq<char>) -> Seq<Seq<char>>
    decreases headers.len(),
{
    if headers.len() == 0 {
        Seq::empty()
    } else {
        let r = values_named(headers.drop_last(), name);
        if headers.last().name@ == name {
            r.push(headers.last().value@)
        } else {
            r
        }
    }
}

impl Response {
    /// The values of the headers named `expected_name`, in order.
    pub fn get_header_values(&self, expected_name: String) -> (values: Vec<String>)
        ensures
            values@.map_values(|v: String| v@) == values_named(self.headers@, expected_name@),
    {
        header_values_of(self.headers.as_slice(), &expected_name)
    }
}

/// The values of the headers named `expected_name`, in order.
pub fn get_header_values(headers: Vec<Header>, expected_name: String) -> (values: Vec<String>)
    ensures
        values@.map_values(|v: String| v@) == values_named(headers@, expected_name@),
{
    header_values_of(headers.as_slice(), &expected_name)
}

/// The values of the headers named `expected_name`, in order.
fn header_values_of(headers: &[Header], expected_name: &String) -> (values: Vec<String>)
    ensures
        values@.map_values(|v: String| v@) == values_named(headers@, expected_name@),
{
    let mut values: Vec<String> = Vec::new();
    let mut i: usize = 0;
    while i < headers.len()
        invariant
            i <= headers.len(),
            values@.map_values(|v: String| v@) == values_named(headers@.take(i as int), expected_name@),
        decreases headers.len() - i,
    {
        assert(headers@.take(i + 1).drop_last() =~= headers@.take(i as int));
        if str_eq(headers[i].name.as_str(), expected_name.as_str()) {
            values.push(headers[i].value.clone());
        }
        i += 1;
        assert(values@.map_values(|v: String| v@) =~= values_named(headers@.take(i as int), expected_name@));
    }
    assert(headers@.take(headers.len() as int) =~= headers@);
    values
}

} // verus!
