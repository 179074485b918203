//! Request building and the exchange decisions.
//!
//! A request builder assembles method, target, headers and body from a
//! URL and user input.  The URL itself is parsed and sliced by the `url`
//! crate; the logic on the extracted parts — the scheme check, the
//! case-insensitive `Host` detection and the appended `Host` field — is
//! verified here, as are the two decisions of the execute engine: what
//! one wake-up of the exchange loop does next, and the disposition of the
//! connection once a response is decoded.
use vstd::prelude::*;

use crate::connection::ConnectionState;
use crate::error::Error;
use crate::error::ErrorKind;

verus! {

/// The `url::Url` type, opaque to the verifier; values of it are only
/// carried to the trusted slicing functions below.
#[verifier::external_type_specification]
#[verifier::external_body]
pub struct ExUrl(url::Url);

/// Relies on `url::Url::scheme`: the scheme of a parsed URL, without the
/// `:` delimiter, is returned lower-cased as a non-empty ASCII string.
#[verifier::external_body]
fn url_scheme(url: &url::Url) -> (r: Vec<u8>)
    ensures
        r@.len() >= 1,
        forall|i: int| 0 <= i < r@.len() ==> #[trigger] r@[i] < 128 && !(65 <= r@[i] <= 90),
{
    url.scheme().as_bytes().to_vec()
}

/// Relies on `url`'s `Index<Range<Position>>`: the slice of the URL's
/// serialization from the start of the host to the end of the port, the
/// `host[:port]` text that a `Host` header carries.
#[verifier::external_body]
fn url_host_port(url: &url::Url) -> Vec<u8> {
    url[url::Position::BeforeHost..url::Position::AfterPort].as_bytes().to_vec()
}

/// Relies on `url`'s `Index<RangeFrom<Position>>`: the slice of the
/// URL's serialization from the start of the path onwards, used as the
/// request-target of the HTTP request.
#[verifier::external_body]
fn url_request_target(url: &url::Url) -> Vec<u8> {
    url[url::Position::BeforePath..].as_bytes().to_vec()
}

/// The parts of a URL that request building reads: scheme, `host[:port]`
/// and the request-target (path and what follows it).
#[derive(Debug, Clone, PartialEq, Eq)]
pub struct UrlParts {
    /// The URL's scheme, lower-cased, without the `:` delimiter.
    pub scheme: Vec<u8>,
    /// The `host[:port]` slice of the URL.
    pub host_port: Vec<u8>,
    /// The path of the URL and everything after it.
    pub path_and_query: Vec<u8>,
}

impl UrlParts {
    /// Extracts the parts of a parsed URL that request building reads.
    /// The scheme comes lower-cased, so comparing it against `http`
    /// needs no case folding.
    pub fn of_url(url: &url::Url) -> (r: UrlParts)
        ensures
            r.scheme@.len() >= 1,
            forall|i: int|
                0 <= i < r.scheme@.len() ==> #[trigger] r.scheme@[i] < 128 && !(65 <= r.scheme@[i]
                    <= 90),
    {
        UrlParts {
            scheme: url_scheme(url),
            host_port: url_host_port(url),
            path_and_query: url_request_target(url),
        }
    }

    /// Builds the parts from the given byte strings; peers of `of_url`
    /// for callers that have no parsed URL at hand.
    pub fn new(scheme: Vec<u8>, host_port: Vec<u8>, path_and_query: Vec<u8>) -> (r: UrlParts)
        ensures
            r.scheme == scheme,
            r.host_port == host_port,
            r.path_and_query == path_and_query,
    {
        UrlParts { scheme, host_port, path_and_query }
    }
}

/// The bytes of the string `http`.
pub open spec fn http_scheme() -> Seq<u8> {
    seq![104u8, 116u8, 116u8, 112u8]
}

/// The bytes of the string `Host`.
pub open spec fn host_field_name() -> Seq<u8> {
    seq![72u8, 111u8, 115u8, 116u8]
}

/// The bytes of the string `close`.
pub open spec fn close_header_value() -> Seq<u8> {
    seq![99u8, 108u8, 111u8, 115u8, 101u8]
}

/// The bytes of the string `keep-alive`.
pub open spec fn keep_alive_header_value() -> Seq<u8> {
    seq![107u8, 101u8, 101u8, 112u8, 45u8, 97u8, 108u8, 105u8, 118u8, 101u8]
}

/// ASCII lower-casing of one byte.
pub open spec fn ascii_lower(b: u8) -> u8 {
    if 65 <= b <= 90 {
        (b + 32) as u8
    } else {
        b
    }
}

/// Whether a header field name is `Host`, ASCII case-insensitively.
pub open spec fn is_host_field_name(s: Seq<u8>) -> bool {
    s.len() == 4 && ascii_lower(s[0]) == 104 && ascii_lower(s[1]) == 111 && ascii_lower(s[2])
        == 115 && ascii_lower(s[3]) == 116
}

/// Whether one of the given header fields names `Host`, ASCII
/// case-insensitively.
pub open spec fn has_host_field(fields: Seq<(Vec<u8>, Vec<u8>)>) -> bool {
    exists|i: int| 0 <= i < fields.len() && is_host_field_name((#[trigger] fields[i]).0@)
}

/// Decides whether the scheme bytes spell `http`.
fn is_http_scheme(scheme: &Vec<u8>) -> (r: bool)
    ensures
        r == (scheme@ == http_scheme()),
{
    let r = scheme.len() == 4 && scheme[0] == 104 && scheme[1] == 116 && scheme[2] == 116
        && scheme[3] == 112;
    proof {
        if r {
            assert(scheme@ =~= http_scheme());
        }
    }
    r
}

/// Decides whether a header field name is `Host`, ASCII
/// case-insensitively.
fn is_host_field(name: &Vec<u8>) -> (r: bool)
    ensures
        r == is_host_field_name(name@),
{
    if name.len() != 4 {
        return false;
    }
    lower_byte(name[0]) == 104 && lower_byte(name[1]) == 111 && lower_byte(name[2]) == 115
        && lower_byte(name[3]) == 116
}

/// ASCII lower-casing of one byte.
fn lower_byte(b: u8) -> (r: u8)
    ensures
        r == ascii_lower(b),
{
    if 65 <= b && b <= 90 {
        b + 32
    } else {
        b
    }
}

/// An HTTP method the client can send.
#[derive(Debug, Clone, Copy, PartialEq, Eq, Structural)]
pub enum Method {
    /// `GET`
    Get,
    /// `HEAD`
    Head,
    /// `DELETE`
    Delete,
    /// `PUT`
    Put,
    /// `POST`
    Post,
}

impl Method {
    /// The method name as it appears on the request line.
    pub fn name(&self) -> (s: &'static str)
        ensures
            s@ == match *self {
                Method::Get => "GET"@,
                Method::Head => "HEAD"@,
                Method::Delete => "DELETE"@,
                Method::Put => "PUT"@,
                Method::Post => "POST"@,
            },
    {
        match *self {
            Method::Get => "GET",
            Method::Head => "HEAD",
            Method::Delete => "DELETE",
            Method::Put => "PUT",
            Method::Post => "POST",
        }
    }
}

/// A fully assembled request, ready for the codec and the wire: method,
/// request-target, header fields in order (with `Host` guaranteed),
/// body, the `host[:port]` text to resolve, and the optional overall
/// timeout in seconds.
#[derive(Debug, Clone, PartialEq, Eq)]
pub struct PreparedRequest {
    /// The HTTP method.
    pub method: Method,
    /// The request-target: the URL's path and what follows it.
    pub target: Vec<u8>,
    /// The header fields, in order; a `Host` field is always present.
    pub headers: Vec<(Vec<u8>, Vec<u8>)>,
    /// The request body.
    pub body: Vec<u8>,
    /// The `host[:port]` text the runtime resolves to a socket address.
    pub host_port: Vec<u8>,
    /// The overall timeout of the request, in seconds, if one was set.
    pub timeout: Option<u64>,
}

/// HTTP request builder.
///
/// This is created by calling [`Client::request`].  The terminal methods
/// assemble a [`PreparedRequest`]; the runtime then resolves the host,
/// acquires a connection and drives the exchange.
///
/// [`Client::request`]: crate::Client::request
#[derive(Debug)]
pub struct RequestBuilder {
    /// The parts of the target URL.
    pub url: UrlParts,
    /// The user-supplied header fields, in order.
    pub header_fields: Vec<(Vec<u8>, Vec<u8>)>,
    /// The overall timeout of the request, in seconds, if one was set.
    pub timeout: Option<u64>,
}

/// What a terminal method of the builder guarantees of its result: the
/// scheme must be `http` (else the request fails as invalid input), the
/// request carries the builder's target, body and timeout, and the
/// user's header fields in order, followed by a generated
/// `Host: host[:port]` field exactly when the user supplied no `Host`
/// field of their own.
pub open spec fn prepared_request_post(
    builder: RequestBuilder,
    method: Method,
    body: Seq<u8>,
    r: Result<PreparedRequest, Error>,
) -> bool {
    &&& (builder.url.scheme@ == http_scheme()) <==> r is Ok
    &&& match r {
        Ok(p) => {
            &&& p.method == method
            &&& p.target@ == builder.url.path_and_query@
            &&& p.body@ == body
            &&& p.host_port@ == builder.url.host_port@
            &&& p.timeout == builder.timeout
            &&& if has_host_field(builder.header_fields@) {
                p.headers@ == builder.header_fields@
            } else {
                &&& p.headers@.len() == builder.header_fields@.len() + 1
                &&& p.headers@.drop_last() == builder.header_fields@
                &&& p.headers@.last().0@ == host_field_name()
                &&& p.headers@.last().1@ == builder.url.host_port@
            }
        },
        Err(e) => e.kind == ErrorKind::InvalidInput,
    }
}

impl RequestBuilder {
    /// Makes a builder for the given URL parts with no header fields and
    /// no timeout.
    pub fn new(url: UrlParts) -> (r: Self)
        ensures
            r.url == url,
            r.header_fields@.len() == 0,
            r.timeout is None,
    {
        RequestBuilder { url, header_fields: Vec::new(), timeout: None }
    }

    /// Adds a field to the tail of the HTTP header of the request.
    pub fn header_field(self, name: Vec<u8>, value: Vec<u8>) -> (r: Self)
        ensures
            r.url == self.url,
            r.timeout == self.timeout,
            r.header_fields@ == self.header_fields@.push((name, value)),
    {
        let mut fields = self.header_fields;
        fields.push((name, value));
        RequestBuilder { url: self.url, header_fields: fields, timeout: self.timeout }
    }

    /// Sets the timeout of the request, in seconds.
    pub fn timeout(self, timeout: u64) -> (r: Self)
        ensures
            r.url == self.url,
            r.header_fields == self.header_fields,
            r.timeout == Some(timeout),
    {
        RequestBuilder { url: self.url, header_fields: self.header_fields, timeout: Some(timeout) }
    }

    /// Prepares a `GET` request.
    pub fn get(self) -> (r: Result<PreparedRequest, Error>)
        ensures
            prepared_request_post(self, Method::Get, Seq::<u8>::empty(), r),
    {
        self.build_request(Method::Get, Vec::new())
    }

    /// Prepares a `HEAD` request.
    pub fn head(self) -> (r: Result<PreparedRequest, Error>)
        ensures
            prepared_request_post(self, Method::Head, Seq::<u8>::empty(), r),
    {
        self.build_request(Method::Head, Vec::new())
    }

    /// Prepares a `DELETE` request.
    pub fn delete(self) -> (r: Result<PreparedRequest, Error>)
        ensures
            prepared_request_post(self, Method::Delete, Seq::<u8>::empty(), r),
    {
        self.build_request(Method::Delete, Vec::new())
    }

    /// Prepares a `PUT` request carrying `body`.
    pub fn put(self, body: Vec<u8>) -> (r: Result<PreparedRequest, Error>)
        ensures
            prepared_request_post(self, Method::Put, body@, r),
    {
        self.build_request(Method::Put, body)
    }

    /// Prepares a `POST` request carrying `body`.
    pub fn post(self, body: Vec<u8>) -> (r: Result<PreparedRequest, Error>)
        ensures
            prepared_request_post(self, Method::Post, body@, r),
    {
        self.build_request(Method::Post, body)
    }

    /// Assembles the request: verifies the scheme is `http`, copies the
    /// user's header fields in order and appends a `Host` field derived
    /// from the URL when none of the user's fields names `Host` (ASCII
    /// case-insensitively).
    fn build_request(self, method: Method, body: Vec<u8>) -> (r: Result<PreparedRequest, Error>)
        ensures
            prepared_request_post(self, method, body@, r),
    {
        if !is_http_scheme(&self.url.scheme) {
            return Err(Error::new(ErrorKind::InvalidInput));
        }
        let mut headers = self.header_fields;
        let mut has_host = false;
        let n = headers.len();
        let mut i: usize = 0;
        while i < n
            invariant
                0 <= i <= n,
                n == headers@.len(),
                has_host == exists|l: int|
                    0 <= l < i && is_host_field_name((#[trigger] headers@[l]).0@),
            decreases n - i,
        {
            if !has_host && is_host_field(&headers[i].0) {
                has_host = true;
            }
            i = i + 1;
        }
        if !has_host {
            let name: Vec<u8> = vec![72u8, 111u8, 115u8, 116u8];
            proof {
                assert(name@ =~= host_field_name());
            }
            let value = clone_bytes(&self.url.host_port);
            let ghost before = headers@;
            headers.push((name, value));
            proof {
                assert(headers@.drop_last() =~= before);
            }
        }
        Ok(
            PreparedRequest {
                method,
                target: self.url.path_and_query,
                headers,
                body,
                host_port: self.url.host_port,
                timeout: self.timeout,
            },
        )
    }
}

/// Copies a byte string.
fn clone_bytes(b: &Vec<u8>) -> (r: Vec<u8>)
    ensures
        r@ == b@,
{
    let mut r: Vec<u8> = Vec::new();
    let n = b.len();
    let mut i: usize = 0;
    while i < n
        invariant
            0 <= i <= n,
            n == b@.len(),
            r@ == b@.subrange(0, i as int),
        decreases n - i,
    {
        r.push(b[i]);
        proof {
            assert(r@ =~= b@.subrange(0, i + 1));
        }
        i = i + 1;
    }
    proof {
        assert(b@.subrange(0, n as int) =~= b@);
    }
    r
}

/// The HTTP version of a decoded response.
#[derive(Debug, Clone, Copy, PartialEq, Eq, Structural)]
pub enum HttpVersion {
    /// HTTP/1.0
    V1_0,
    /// HTTP/1.1
    V1_1,
}

/// The disposition a finished exchange leaves the connection in, from
/// the response's HTTP version and its `Connection` header (compared
/// byte for byte, as the wire carries it):
/// the connection closes when the response arrived before the request
/// was fully written, when an HTTP/1.1 response says `Connection:
/// close`, or when an HTTP/1.0 response does not say `Connection:
/// keep-alive`; otherwise it can be recycled.
pub open spec fn spec_disposition(
    encoder_idle: bool,
    version: HttpVersion,
    connection_header: Option<Seq<u8>>,
) -> ConnectionState {
    if !encoder_idle {
        ConnectionState::Closed
    } else {
        match version {
            HttpVersion::V1_0 => if connection_header == Some(keep_alive_header_value()) {
                ConnectionState::Recyclable
            } else {
                ConnectionState::Closed
            },
            HttpVersion::V1_1 => if connection_header == Some(close_header_value()) {
                ConnectionState::Closed
            } else {
                ConnectionState::Recyclable
            },
        }
    }
}

/// Classifies the connection once the response is fully decoded.
/// `encoder_idle` says whether the request was fully emitted;
/// `connection_header` is the response's `Connection` header value, if
/// present.
pub fn classify_disposition(
    encoder_idle: bool,
    version: HttpVersion,
    connection_header: Option<&Vec<u8>>,
) -> (r: ConnectionState)
    ensures
        r == spec_disposition(
            encoder_idle,
            version,
            match connection_header {
                Some(h) => Some(h@),
                None => None,
            },
        ),
{
    if !encoder_idle {
        return ConnectionState::Closed;
    }
    match version {
        HttpVersion::V1_0 => {
            match connection_header {
                Some(h) => {
                    if is_keep_alive_value(h) {
                        ConnectionState::Recyclable
                    } else {
                        ConnectionState::Closed
                    }
                },
                None => ConnectionState::Closed,
            }
        },
        HttpVersion::V1_1 => {
            match connection_header {
                Some(h) => {
                    if is_close_value(h) {
                        ConnectionState::Closed
                    } else {
                        ConnectionState::Recyclable
                    }
                },
                None => ConnectionState::Recyclable,
            }
        },
    }
}

/// Decides whether a `Connection` header value spells `close`.
fn is_close_value(h: &Vec<u8>) -> (r: bool)
    ensures
        r == (h@ == close_header_value()),
{
    let r = h.len() == 5 && h[0] == 99 && h[1] == 108 && h[2] == 111 && h[3] == 115 && h[4] == 101;
    proof {
        if r {
            assert(h@ =~= close_header_value());
        }
    }
    r
}

/// Decides whether a `Connection` header value spells `keep-alive`.
fn is_keep_alive_value(h: &Vec<u8>) -> (r: bool)
    ensures
        r == (h@ == keep_alive_header_value()),
{
    let r = h.len() == 10 && h[0] == 107 && h[1] == 101 && h[2] == 101 && h[3] == 112 && h[4] == 45
        && h[5] == 97 && h[6] == 108 && h[7] == 105 && h[8] == 118 && h[9] == 101;
    proof {
        if r {
            assert(h@ =~= keep_alive_header_value());
        }
    }
    r
}

/// What one wake-up of the execute loop does after the socket I/O, the
/// encoder and the decoder all made what progress they could.
#[derive(Debug, Clone, Copy, PartialEq, Eq, Structural)]
pub enum ExchangeStep {
    /// The response is fully decoded: classify and finish.
    Finished,
    /// The peer closed the stream before the response was complete.
    FailEos,
    /// Both sides would block: yield until the socket is ready again.
    NotReady,
    /// Progress was made and more may follow: run the loop body again.
    Continue,
}

/// Decides what one wake-up of the execute loop does next, in the order
/// the loop checks: a fully decoded response finishes the exchange; an
/// end-of-stream before that is an error; blocked I/O on both sides
/// yields; otherwise the loop body runs again.
pub fn exchange_step(decoder_idle: bool, eos: bool, would_block: bool) -> (r: ExchangeStep)
    ensures
        r == if decoder_idle {
            ExchangeStep::Finished
        } else if eos {
            ExchangeStep::FailEos
        } else if would_block {
            ExchangeStep::NotReady
        } else {
            ExchangeStep::Continue
        },
{
    if decoder_idle {
        ExchangeStep::Finished
    } else if eos {
        ExchangeStep::FailEos
    } else if would_block {
        ExchangeStep::NotReady
    } else {
        ExchangeStep::Continue
    }
}

} // verus!
