use vstd::prelude::*;

use vstd::string::StringSliceAdditionalSpecFns;

use crate::text::{str_eq};

verus! {

/// The one WebSocket frame/message ceiling every target shares.
pub const MAX_WEBSOCKET_MESSAGE_BYTES: usize = 65536;

/// The largest request body the host hands to a route extension.
pub const MAX_EXTENSION_BODY_BYTES: usize = 1048576;

/// The WebSocket subprotocol every admitted socket must offer.
pub const SHARED_WATCH_SUBPROTOCOL: &'static str = "bcsp.v1";

/// Header that carries the session nonce on state-changing requests.
pub const SESSION_HEADER: &'static str = "x-bcsp-session";

/// The host's own WebSocket route; no injected route may claim it.
pub const WATCH_SOCKET_PATH: &'static str = "/api/v1/watch";

/// The service status route, whose target-scoped form needs the session nonce.
pub const PRODUCT_SERVICE_STATUS_PATH: &'static str = "/api/v1/service/status";

/// The HTTP method of a request handed to a route extension.
#[derive(Clone, Debug, Eq, PartialEq)]
pub enum RequestMethod {
    Get,
    Head,
    Post,
    Put,
    Patch,
    Delete,
    Options,
    Other(String),
}

/// Whether a method may change server state (everything but GET, HEAD and OPTIONS).
pub open spec fn spec_changes_state(method: RequestMethod) -> bool {
    !(method is Get || method is Head || method is Options)
}

/// Two methods are the same method; a non-standard method is compared by its text.
pub open spec fn method_eq(a: RequestMethod, b: RequestMethod) -> bool {
    match (a, b) {
        (RequestMethod::Get, RequestMethod::Get) => true,
        (RequestMethod::Head, RequestMethod::Head) => true,
        (RequestMethod::Post, RequestMethod::Post) => true,
        (RequestMethod::Put, RequestMethod::Put) => true,
        (RequestMethod::Patch, RequestMethod::Patch) => true,
        (RequestMethod::Delete, RequestMethod::Delete) => true,
        (RequestMethod::Options, RequestMethod::Options) => true,
        (RequestMethod::Other(x), RequestMethod::Other(y)) => x@ == y@,
        _ => false,
    }
}

impl RequestMethod {
    pub fn changes_state(&self) -> (res: bool)
        ensures
            res == spec_changes_state(*self),
    {
        match self {
            RequestMethod::Get | RequestMethod::Head | RequestMethod::Options => false,
            _ => true,
        }
    }

    /// Whether `self` and `other` are the same method.
    pub fn same_as(&self, other: &RequestMethod) -> (res: bool)
        ensures
            res == method_eq(*self, *other),
    {
        match (self, other) {
            (RequestMethod::Get, RequestMethod::Get) => true,
            (RequestMethod::Head, RequestMethod::Head) => true,
            (RequestMethod::Post, RequestMethod::Post) => true,
            (RequestMethod::Put, RequestMethod::Put) => true,
            (RequestMethod::Patch, RequestMethod::Patch) => true,
            (RequestMethod::Delete, RequestMethod::Delete) => true,
            (RequestMethod::Options, RequestMethod::Options) => true,
            (RequestMethod::Other(x), RequestMethod::Other(y)) => str_eq(x.as_str(), y.as_str()),
            _ => false,
        }
    }
}

/// One request as a route extension receives it.
#[derive(Clone, Debug, Eq, PartialEq)]
pub struct ExtensionRequest {
    method: RequestMethod,
    path: String,
    query: Option<String>,
    body: Vec<u8>,
}

/// The characters of an optional string.
pub open spec fn opt_chars(o: Option<&str>) -> Option<Seq<char>> {
    match o {
        Some(s) => Some(s@),
        None => None,
    }
}

/// The characters of an optional owned string.
pub open spec fn opt_string_chars(o: Option<String>) -> Option<Seq<char>> {
    match o {
        Some(s) => Some(s@),
        None => None,
    }
}

impl ExtensionRequest {
    pub closed spec fn spec_method(&self) -> RequestMethod {
        self.method
    }

    pub closed spec fn spec_path(&self) -> Seq<char> {
        self.path@
    }

    pub closed spec fn spec_query(&self) -> Option<Seq<char>> {
        opt_string_chars(self.query)
    }

    pub closed spec fn spec_body(&self) -> Seq<u8> {
        self.body@
    }

    pub fn new(method: RequestMethod, path: String, query: Option<String>, body: Vec<u8>) -> (res:
        Self)
        ensures
            res.spec_method() == method,
            res.spec_path() == path@,
            res.spec_query() == opt_string_chars(query),
            res.spec_body() == body@,
    {
        ExtensionRequest { method, path, query, body }
    }

    pub fn method(&self) -> (res: &RequestMethod)
        ensures
            *res == self.spec_method(),
    {
        &self.method
    }

    pub fn path(&self) -> (res: &str)
        ensures
            res@ == self.spec_path(),
    {
        self.path.as_str()
    }

    pub fn query(&self) -> (res: Option<&str>)
        ensures
            opt_chars(res) == self.spec_query(),
    {
        match &self.query {
            Some(query) => Some(query.as_str()),
            None => None,
        }
    }

    pub fn body(&self) -> (res: &[u8])
        ensures
            res@ == self.spec_body(),
    {
        self.body.as_slice()
    }
}

/// One response a route extension hands back to the host.
#[derive(Clone, Debug, Eq, PartialEq)]
pub struct ExtensionResponse {
    status: u16,
    content_type: &'static str,
    body: Vec<u8>,
}

/// The content type of a JSON response.
pub const JSON_CONTENT_TYPE: &'static str = "application/json; charset=utf-8";

/// The content type of an HTML response.
pub const HTML_CONTENT_TYPE: &'static str = "text/html; charset=utf-8";

/// The content type of a plain-text response.
pub const TEXT_CONTENT_TYPE: &'static str = "text/plain; charset=utf-8";

impl ExtensionResponse {
    pub closed spec fn spec_status(&self) -> u16 {
        self.status
    }

    pub closed spec fn spec_content_type(&self) -> Seq<char> {
        self.content_type@
    }

    pub closed spec fn spec_body(&self) -> Seq<u8> {
        self.body@
    }

    pub fn bytes(status: u16, content_type: &'static str, body: Vec<u8>) -> (res: Self)
        ensures
            res.spec_status() == status,
            res.spec_content_type() == content_type@,
            res.spec_body() == body@,
    {
        ExtensionResponse { status, content_type, body }
    }

    pub fn json_bytes(status: u16, body: Vec<u8>) -> (res: Self)
        ensures
            res.spec_status() == status,
            res.spec_content_type() == JSON_CONTENT_TYPE@,
            res.spec_body() == body@,
    {
        Self::bytes(status, JSON_CONTENT_TYPE, body)
    }

    pub fn html(status: u16, value: Vec<u8>) -> (res: Self)
        ensures
            res.spec_status() == status,
            res.spec_content_type() == HTML_CONTENT_TYPE@,
            res.spec_body() == value@,
    {
        Self::bytes(status, HTML_CONTENT_TYPE, value)
    }

    pub fn text(status: u16, value: Vec<u8>) -> (res: Self)
        ensures
            res.spec_status() == status,
            res.spec_content_type() == TEXT_CONTENT_TYPE@,
            res.spec_body() == value@,
    {
        Self::bytes(status, TEXT_CONTENT_TYPE, value)
    }

    pub fn no_content() -> (res: Self)
        ensures
            res.spec_status() == 204,
            res.spec_content_type() == TEXT_CONTENT_TYPE@,
            res.spec_body().len() == 0,
    {
        ExtensionResponse { status: 204, content_type: TEXT_CONTENT_TYPE, body: Vec::new() }
    }

    pub fn not_found() -> (res: Self)
        ensures
            res.spec_status() == 404,
            res.spec_content_type() == TEXT_CONTENT_TYPE@,
            res.spec_body() == "not found".spec_bytes(),
    {
        Self::text(404, vstd::slice::slice_to_vec("not found".as_bytes()))
    }

    pub fn status(&self) -> (res: u16)
        ensures
            res == self.spec_status(),
    {
        self.status
    }

    pub fn content_type(&self) -> (res: &'static str)
        ensures
            res@ == self.spec_content_type(),
    {
        self.content_type
    }

    pub fn body(&self) -> (res: &[u8])
        ensures
            res@ == self.spec_body(),
    {
        self.body.as_slice()
    }
}

/// One (method, path) pair a route extension serves.
#[derive(Clone, Debug, Eq, PartialEq)]
pub struct ExtensionRoute {
    method: RequestMethod,
    path: &'static str,
}

impl ExtensionRoute {
    pub closed spec fn spec_method(&self) -> RequestMethod {
        self.method
    }

    pub closed spec fn spec_path(&self) -> Seq<char> {
        self.path@
    }

    pub fn new(method: RequestMethod, path: &'static str) -> (res: Self)
        ensures
            res.spec_method() == method,
            res.spec_path() == path@,
    {
        ExtensionRoute { method, path }
    }

    pub fn matches(&self, method: &RequestMethod, path: &str) -> (res: bool)
        ensures
            res == (method_eq(self.spec_method(), *method) && self.spec_path() == path@),
    {
        self.method.same_as(method) && str_eq(self.path, path)
    }

    pub fn method(&self) -> (res: &RequestMethod)
        ensures
            *res == self.spec_method(),
    {
        &self.method
    }

    pub fn path(&self) -> (res: &'static str)
        ensures
            res@ == self.spec_path(),
    {
        self.path
    }
}

/// A target-owned HTTP surface behind the shared host.
pub trait RouteExtension {
    fn route_inventory(&self) -> Vec<ExtensionRoute> {
        Vec::new()
    }

    fn handle(&self, request: ExtensionRequest) -> ExtensionResponse;
}

/// The per-process secret a browser must echo on state-changing requests and sockets.
#[derive(Clone, Debug, Eq, Hash, Ord, PartialEq, PartialOrd)]
pub struct SessionNonce(String);

impl SessionNonce {
    pub closed spec fn spec_text(&self) -> Seq<char> {
        self.0@
    }

    /// Wraps the canonical text of a validated trace identifier.
    pub fn from_trace_id_text(text: String) -> (res: Self)
        ensures
            res.spec_text() == text@,
    {
        SessionNonce(text)
    }

    pub fn as_str(&self) -> (res: &str)
        ensures
            res@ == self.spec_text(),
    {
        self.0.as_str()
    }

    /// The nonce as text, as `Display` writes it.
    pub fn to_text(&self) -> (res: String)
        ensures
            res@ == self.spec_text(),
    {
        self.0.clone()
    }
}

} // verus!
