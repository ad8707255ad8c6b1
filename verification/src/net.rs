//! Network-facing values: cached resources, response records and the fetch
//! facade.
//!
//! The transport itself is an external collaborator; this module holds the
//! plain data that crosses that boundary.

use vstd::prelude::*;
use vstd::utf8::{decode_utf8, valid_utf8};

use crate::assoc::{lemma_smap_dom, lemma_smap_push, sfind, sget, skeys_unique, smap_of};
use crate::errors::{NetworkError, ParserError, VeloraError, VeloraResult};
use crate::types::HttpStatus;

verus! {

/// std's opaque wall-clock instant; carried through, never read.
#[verifier::external_type_specification]
#[verifier::external_body]
pub struct ExSystemTime(std::time::SystemTime);

/// Relies on SystemTime::clone, a derived copy of the opaque instant.
pub assume_specification[ <std::time::SystemTime as Clone>::clone ](
    t: &std::time::SystemTime,
) -> (r: std::time::SystemTime)
    ensures
        r == *t,
;

/// url's parsed address type; carried through, never read.
#[verifier::external_type_specification]
#[verifier::external_body]
pub struct ExUrl(url::Url);

/// A fetched resource held by the cache.
#[derive(Debug, Clone)]
pub struct CachedResource {
    /// Resource bytes.
    pub data: Vec<u8>,
    /// Declared content type.
    pub content_type: String,
    /// When the resource was cached.
    pub timestamp: std::time::SystemTime,
}

/// A bounded cache of fetched resources, keyed by address.
pub struct ResourceCache {
    resources: Vec<(String, CachedResource)>,
    max_size: usize,
    current_size: usize,
}

impl ResourceCache {
    /// The cache as a map (ghost).
    pub closed spec fn view(self) -> Map<Seq<char>, CachedResource> {
        smap_of(self.resources@)
    }

    /// The cache's own invariant: unique keys.
    pub closed spec fn wf(self) -> bool {
        skeys_unique(self.resources@)
    }

    /// The size bound (ghost).
    pub closed spec fn spec_max_size(self) -> nat {
        self.max_size as nat
    }

    /// The accounted size (ghost).
    pub closed spec fn spec_current_size(self) -> nat {
        self.current_size as nat
    }

    /// An empty cache bounded by `max_size` bytes.
    pub fn new(max_size: usize) -> (r: ResourceCache)
        ensures
            r.wf(),
            r@ == Map::<Seq<char>, CachedResource>::empty(),
            r.spec_max_size() == max_size,
            r.spec_current_size() == 0,
    {
        ResourceCache { resources: Vec::new(), max_size, current_size: 0 }
    }

    /// The resource cached under `url`, if any.
    pub fn get(&self, url: &str) -> (r: Option<&CachedResource>)
        requires
            self.wf(),
        ensures
            match r {
                Some(v) => self@.contains_key(url@) && *v == self@[url@],
                None => !self@.contains_key(url@),
            },
    {
        sget(&self.resources, url)
    }

    /// Stores a resource; rejected when the accounted size would pass the
    /// bound.
    pub fn store(&mut self, url: String, resource: CachedResource) -> (r: VeloraResult<()>)
        requires
            old(self).wf(),
        ensures
            final(self).wf(),
            final(self).spec_max_size() == old(self).spec_max_size(),
            old(self).spec_current_size() + resource.data@.len() > old(self).spec_max_size() ==> (
            r matches Err(VeloraError::Network(NetworkError::RequestFailed(_)))) && final(self)@
                == old(self)@ && final(self).spec_current_size() == old(self).spec_current_size(),
            old(self).spec_current_size() + resource.data@.len() <= old(self).spec_max_size()
                ==> r is Ok && final(self)@ == old(self)@.insert(url@, resource) && final(
                self).spec_current_size() == old(self).spec_current_size() + resource.data@.len(),
    {
        let resource_size = resource.data.len();
        if resource_size > self.max_size || self.current_size > self.max_size - resource_size {
            return Err(
                VeloraError::Network(NetworkError::RequestFailed("cache full".to_owned())),
            );
        }
        proof {
            lemma_smap_dom(self.resources@, url@);
        }
        match sfind(&self.resources, url.as_str()) {
            Some(i) => {
                proof {
                    crate::assoc::lemma_smap_update(self.resources@, i as int, (url, resource));
                }
                let slot = &mut self.resources[i];
                *slot = (url, resource);
            },
            None => {
                proof {
                    lemma_smap_push(self.resources@, (url, resource));
                }
                self.resources.push((url, resource));
            },
        }
        self.current_size = self.current_size + resource_size;
        Ok(())
    }

    /// Empties the cache.
    pub fn clear(&mut self)
        ensures
            final(self).wf(),
            final(self)@ == Map::<Seq<char>, CachedResource>::empty(),
            final(self).spec_current_size() == 0,
            final(self).spec_max_size() == old(self).spec_max_size(),
    {
        self.resources.clear();
        self.current_size = 0;
    }

    /// The accounted size, in bytes.
    pub fn current_size(&self) -> (r: usize)
        ensures
            r == self.spec_current_size(),
    {
        self.current_size
    }

    /// The size bound, in bytes.
    pub fn max_size(&self) -> (r: usize)
        ensures
            r == self.spec_max_size(),
    {
        self.max_size
    }
}

/// Configuration of the external transport client.
#[derive(Debug, Clone, PartialEq)]
pub struct HttpClientConfig {
    /// User-agent string presented to servers.
    pub user_agent: String,
    /// Request timeout, in seconds.
    pub timeout: u64,
    /// Maximum redirects followed.
    pub max_redirects: u32,
}

impl Default for HttpClientConfig {
    /// Defaults: a browser-like user agent, 30 seconds, 10 redirects.
    fn default() -> (r: HttpClientConfig)
        ensures
            r.timeout == 30,
            r.max_redirects == 10,
            r.user_agent@.len() > 0,
    {
        let ua =
            "Mozilla/5.0 (X11; Linux x86_64) AppleWebKit/537.36 (KHTML, like Gecko) Chrome/120.0.0.0 Safari/537.36";
        proof {
            reveal_strlit(
                "Mozilla/5.0 (X11; Linux x86_64) AppleWebKit/537.36 (KHTML, like Gecko) Chrome/120.0.0.0 Safari/537.36",
            );
        }
        HttpClientConfig { user_agent: ua.to_owned(), timeout: 30, max_redirects: 10 }
    }
}

/// A response: status, headers and body.
pub struct HttpResponse {
    /// Response status.
    pub status: HttpStatus,
    /// Response headers, keys unique.
    pub headers: Vec<(String, String)>,
    /// Response body bytes.
    pub body: Vec<u8>,
}

impl HttpResponse {
    /// The headers as a map (ghost).
    pub open spec fn headers_map(self) -> Map<Seq<char>, String> {
        smap_of(self.headers@)
    }

    /// The response's own invariant: unique header names.
    pub open spec fn wf(self) -> bool {
        skeys_unique(self.headers@)
    }

    /// Assembles a response.
    pub fn new(status: HttpStatus, headers: Vec<(String, String)>, body: Vec<u8>) -> (r:
        HttpResponse)
        ensures
            r.status == status,
            r.headers@ == headers@,
            r.body@ == body@,
    {
        HttpResponse { status, headers, body }
    }

    /// The header value under `name`, if any.
    pub fn get_header(&self, name: &str) -> (r: Option<&str>)
        requires
            self.wf(),
        ensures
            match r {
                Some(v) => self.headers_map().contains_key(name@) && v@ == self.headers_map()[
                    name@]@,
                None => !self.headers_map().contains_key(name@),
            },
    {
        match sget(&self.headers, name) {
            Some(v) => Some(v.as_str()),
            None => None,
        }
    }

    /// The body decoded as text; rejected when it is not valid UTF-8.
    pub fn text(&self) -> (r: VeloraResult<String>)
        ensures
            r is Ok <==> valid_utf8(self.body@),
            r is Ok ==> r->Ok_0@ == decode_utf8(self.body@),
            !valid_utf8(self.body@) ==> r matches Err(
                VeloraError::Parser(ParserError::InvalidEncoding(_)),
            ),
    {
        match crate::markup::utf8_decode(self.body.as_slice()) {
            Some(text) => Ok(text.to_owned()),
            None => Err(
                VeloraError::Parser(
                    ParserError::InvalidEncoding("body is not valid UTF-8".to_owned()),
                ),
            ),
        }
    }
}

/// Fetch entry point of the placeholder transport pipeline; accepts every
/// address. The transfer itself belongs to the external collaborator.
pub fn fetch(url: &url::Url) -> (r: Result<(), NetError>)
    ensures
        r is Ok,
{
    let _ = url;
    Ok(())
}

/// Error of the placeholder transport pipeline.
#[derive(Debug, Clone, PartialEq)]
pub enum NetError {
    Generic,
}

} // verus!
