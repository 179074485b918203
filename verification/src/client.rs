//! HTTP client.
use vstd::prelude::*;

use crate::connection::Oneshot;
use crate::request::RequestBuilder;
use crate::request::UrlParts;

verus! {

/// HTTP client: a connection provider and a way to start requests.
#[derive(Debug, Default, Clone)]
pub struct Client<C = Oneshot> {
    /// The provider that acquisitions go through.
    pub connection_provider: C,
}

impl<C> Client<C> {
    /// Makes a new `Client` instance.
    pub fn new(connection_provider: C) -> (r: Self)
        ensures
            r.connection_provider == connection_provider,
    {
        Client { connection_provider }
    }

    /// Starts building a request for the given URL.
    pub fn request(&mut self, url: &url::Url) -> (b: RequestBuilder)
        ensures
            *final(self) == *old(self),
            b.header_fields@.len() == 0,
            b.timeout is None,
    {
        RequestBuilder::new(UrlParts::of_url(url))
    }
}

} // verus!
