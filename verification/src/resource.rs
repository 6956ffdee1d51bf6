//! Host-owned resources: the request snapshot, the response under
//! construction, and response cookies.
//!
//! Sandboxed code never holds a native reference to any of these; it
//! reaches them only through handles into a [`crate::table::ResourceTable`].
//! Names and values are kept as raw bytes, as they cross the boundary.

use vstd::prelude::*;

use crate::text::bytes_eq;
use crate::text::bytes_eq_ignore_ascii_case;
use crate::text::spec_lower_bytes;

verus! {

/// The `SameSite` cookie attribute.
#[derive(Clone, Copy, Debug, PartialEq, Eq, Structural)]
pub enum SameSite {
    /// The cookie is only sent in a first-party context.
    Strict,
    /// The cookie is also sent with top-level navigations from elsewhere.
    Lax,
    /// The cookie is sent in all contexts, cross-origin included.
    CrossSite,
}

/// The mathematical value of a list of name/value byte pairs.
pub open spec fn pairs_view(s: Seq<(Vec<u8>, Vec<u8>)>) -> Seq<(Seq<u8>, Seq<u8>)> {
    Seq::new(s.len(), |i: int| (s[i].0@, s[i].1@))
}

/// The value of the first pair whose name is exactly `name`, if any.
pub open spec fn spec_lookup(pairs: Seq<(Seq<u8>, Seq<u8>)>, name: Seq<u8>) -> Option<Seq<u8>>
    decreases pairs.len(),
{
    if pairs.len() == 0 {
        None
    } else if pairs[0].0 == name {
        Some(pairs[0].1)
    } else {
        spec_lookup(pairs.skip(1), name)
    }
}

/// The value of the first pair whose name equals `name` up to ASCII
/// case, as header names compare.
pub open spec fn spec_lookup_ci(pairs: Seq<(Seq<u8>, Seq<u8>)>, name: Seq<u8>) -> Option<Seq<u8>>
    decreases pairs.len(),
{
    if pairs.len() == 0 {
        None
    } else if spec_lower_bytes(pairs[0].0) == spec_lower_bytes(name) {
        Some(pairs[0].1)
    } else {
        spec_lookup_ci(pairs.skip(1), name)
    }
}

/// Finds the first pair whose name is exactly `name`.
pub fn find_pair_exact<'a>(pairs: &'a Vec<(Vec<u8>, Vec<u8>)>, name: &[u8]) -> (r: Option<
    &'a Vec<u8>,
>)
    ensures
        match r {
            Some(v) => spec_lookup(pairs_view(pairs@), name@) == Some(v@),
            None => spec_lookup(pairs_view(pairs@), name@) is None,
        },
{
    let ghost all = pairs_view(pairs@);
    proof {
        assert(all.skip(0) =~= all);
    }
    let mut i: usize = 0;
    while i < pairs.len()
        invariant
            i <= pairs@.len(),
            all == pairs_view(pairs@),
            spec_lookup(all.skip(i as int), name@) == spec_lookup(all, name@),
        decreases pairs@.len() - i,
    {
        if bytes_eq(pairs[i].0.as_slice(), name) {
            proof {
                assert(all.skip(i as int)[0] == (pairs@[i as int].0@, pairs@[i as int].1@));
            }
            return Some(&pairs[i].1);
        }
        proof {
            assert(all.skip(i as int)[0] == (pairs@[i as int].0@, pairs@[i as int].1@));
            assert(all.skip(i as int).skip(1) =~= all.skip(i as int + 1));
        }
        i += 1;
    }
    proof {
        assert(all.skip(i as int) =~= Seq::<(Seq<u8>, Seq<u8>)>::empty());
    }
    None
}

/// Finds the first pair whose name equals `name` up to ASCII case.
pub fn find_pair_ci<'a>(pairs: &'a Vec<(Vec<u8>, Vec<u8>)>, name: &[u8]) -> (r: Option<
    &'a Vec<u8>,
>)
    ensures
        match r {
            Some(v) => spec_lookup_ci(pairs_view(pairs@), name@) == Some(v@),
            None => spec_lookup_ci(pairs_view(pairs@), name@) is None,
        },
{
    let ghost all = pairs_view(pairs@);
    proof {
        assert(all.skip(0) =~= all);
    }
    let mut i: usize = 0;
    while i < pairs.len()
        invariant
            i <= pairs@.len(),
            all == pairs_view(pairs@),
            spec_lookup_ci(all.skip(i as int), name@) == spec_lookup_ci(all, name@),
        decreases pairs@.len() - i,
    {
        if bytes_eq_ignore_ascii_case(pairs[i].0.as_slice(), name) {
            proof {
                assert(all.skip(i as int)[0] == (pairs@[i as int].0@, pairs@[i as int].1@));
            }
            return Some(&pairs[i].1);
        }
        proof {
            assert(all.skip(i as int)[0] == (pairs@[i as int].0@, pairs@[i as int].1@));
            assert(all.skip(i as int).skip(1) =~= all.skip(i as int + 1));
        }
        i += 1;
    }
    proof {
        assert(all.skip(i as int) =~= Seq::<(Seq<u8>, Seq<u8>)>::empty());
    }
    None
}

/// A read-only snapshot of the inbound request, created once per
/// invocation before the sandbox runs.
#[derive(Debug)]
pub struct RequestData {
    /// The request method, uppercase, as it arrived.
    pub method: Vec<u8>,
    /// The request URI.
    pub uri: Vec<u8>,
    /// The request headers, in arrival order.
    pub headers: Vec<(Vec<u8>, Vec<u8>)>,
    /// The route parameters captured when the request was routed.
    pub params: Vec<(Vec<u8>, Vec<u8>)>,
    /// The fully read request body.
    pub body: Vec<u8>,
}

/// The mathematical value of a request snapshot.
pub struct RequestView {
    /// The request method.
    pub method: Seq<u8>,
    /// The request URI.
    pub uri: Seq<u8>,
    /// The request headers.
    pub headers: Seq<(Seq<u8>, Seq<u8>)>,
    /// The route parameters.
    pub params: Seq<(Seq<u8>, Seq<u8>)>,
    /// The request body.
    pub body: Seq<u8>,
}

impl View for RequestData {
    type V = RequestView;

    open spec fn view(&self) -> RequestView {
        RequestView {
            method: self.method@,
            uri: self.uri@,
            headers: pairs_view(self.headers@),
            params: pairs_view(self.params@),
            body: self.body@,
        }
    }
}

/// A response cookie under construction, or attached to a response.
#[derive(Debug)]
pub struct CookieData {
    /// The cookie name.
    pub name: Vec<u8>,
    /// The cookie value.
    pub value: Vec<u8>,
    /// The HttpOnly attribute, once set.
    pub http_only: bool,
    /// The Secure attribute, once set.
    pub secure: bool,
    /// The MaxAge attribute in whole seconds, once set.
    pub max_age_secs: Option<i64>,
    /// The SameSite attribute, once set.
    pub same_site: Option<SameSite>,
    /// The Domain attribute, once set.
    pub domain: Option<Vec<u8>>,
    /// The Path attribute, once set.
    pub path: Option<Vec<u8>>,
}

/// The mathematical value of a cookie.
pub struct CookieView {
    /// The cookie name.
    pub name: Seq<u8>,
    /// The cookie value.
    pub value: Seq<u8>,
    /// The HttpOnly attribute.
    pub http_only: bool,
    /// The Secure attribute.
    pub secure: bool,
    /// The MaxAge attribute in whole seconds.
    pub max_age_secs: Option<i64>,
    /// The SameSite attribute.
    pub same_site: Option<SameSite>,
    /// The Domain attribute.
    pub domain: Option<Seq<u8>>,
    /// The Path attribute.
    pub path: Option<Seq<u8>>,
}

impl View for CookieData {
    type V = CookieView;

    open spec fn view(&self) -> CookieView {
        CookieView {
            name: self.name@,
            value: self.value@,
            http_only: self.http_only,
            secure: self.secure,
            max_age_secs: self.max_age_secs,
            same_site: self.same_site,
            domain: match self.domain {
                Option::Some(ref d) => Option::Some(d@),
                Option::None => Option::None,
            },
            path: match self.path {
                Option::Some(ref p) => Option::Some(p@),
                Option::None => Option::None,
            },
        }
    }
}

impl CookieData {
    /// A fresh cookie with the given name and value and no attributes set.
    pub fn new(name: Vec<u8>, value: Vec<u8>) -> (r: CookieData)
        ensures
            r@ == (CookieView {
                name: name@,
                value: value@,
                http_only: false,
                secure: false,
                max_age_secs: Option::None,
                same_site: Option::None,
                domain: Option::None,
                path: Option::None,
            }),
    {
        CookieData {
            name,
            value,
            http_only: false,
            secure: false,
            max_age_secs: Option::None,
            same_site: Option::None,
            domain: Option::None,
            path: Option::None,
        }
    }
}

/// The mathematical value of a list of cookies.
pub open spec fn cookies_view(s: Seq<CookieData>) -> Seq<CookieView> {
    Seq::new(s.len(), |i: int| s[i]@)
}

/// A response under construction, mutable only through the host call
/// surface, created on demand by sandboxed code.
#[derive(Debug)]
pub struct ResponseData {
    /// The status code, within 100..=599.
    pub status: u16,
    /// The response headers; last write per name wins.
    pub headers: Vec<(Vec<u8>, Vec<u8>)>,
    /// The response body.
    pub body: Vec<u8>,
    /// The cookies inserted into the response, in insertion order.
    pub cookies: Vec<CookieData>,
    /// The cookies removed against the response, in removal order.
    pub removed_cookies: Vec<CookieData>,
}

/// The mathematical value of a response.
pub struct ResponseView {
    /// The status code.
    pub status: u16,
    /// The response headers.
    pub headers: Seq<(Seq<u8>, Seq<u8>)>,
    /// The response body.
    pub body: Seq<u8>,
    /// The cookies inserted into the response.
    pub cookies: Seq<CookieView>,
    /// The cookies removed against the response.
    pub removed_cookies: Seq<CookieView>,
}

impl View for ResponseData {
    type V = ResponseView;

    open spec fn view(&self) -> ResponseView {
        ResponseView {
            status: self.status,
            headers: pairs_view(self.headers@),
            body: self.body@,
            cookies: cookies_view(self.cookies@),
            removed_cookies: cookies_view(self.removed_cookies@),
        }
    }
}

impl ResponseData {
    /// A fresh response with the given status, no headers, an empty body
    /// and no cookies.
    pub fn new(status: u16) -> (r: ResponseData)
        ensures
            r@ == (ResponseView {
                status,
                headers: Seq::empty(),
                body: Seq::empty(),
                cookies: Seq::empty(),
                removed_cookies: Seq::empty(),
            }),
    {
        let r = ResponseData {
            status,
            headers: Vec::new(),
            body: Vec::new(),
            cookies: Vec::new(),
            removed_cookies: Vec::new(),
        };
        proof {
            assert(pairs_view(r.headers@) =~= Seq::<(Seq<u8>, Seq<u8>)>::empty());
            assert(cookies_view(r.cookies@) =~= Seq::<CookieView>::empty());
            assert(cookies_view(r.removed_cookies@) =~= Seq::<CookieView>::empty());
        }
        r
    }
}

/// A handle-addressed resource: the tag decides which accessors may
/// touch it.
#[derive(Debug)]
pub enum Resource {
    /// The invocation's request snapshot.
    Request(RequestData),
    /// A response under construction.
    Response(ResponseData),
    /// A response cookie under construction.
    Cookie(CookieData),
}

/// The kind tag a handle is checked against on every access.
#[derive(Clone, Copy, Debug, PartialEq, Eq, Structural)]
pub enum ResourceKind {
    /// A request resource.
    Request,
    /// A response resource.
    Response,
    /// A cookie resource.
    Cookie,
}

/// The mathematical value of a resource.
pub enum ResourceView {
    /// The invocation's request snapshot.
    Request(RequestView),
    /// A response under construction.
    Response(ResponseView),
    /// A response cookie under construction.
    Cookie(CookieView),
}

impl View for Resource {
    type V = ResourceView;

    open spec fn view(&self) -> ResourceView {
        match self {
            Resource::Request(r) => ResourceView::Request(r@),
            Resource::Response(r) => ResourceView::Response(r@),
            Resource::Cookie(c) => ResourceView::Cookie(c@),
        }
    }
}

/// The kind tag of a resource value.
pub open spec fn spec_kind_of(r: ResourceView) -> ResourceKind {
    match r {
        ResourceView::Request(_) => ResourceKind::Request,
        ResourceView::Response(_) => ResourceKind::Response,
        ResourceView::Cookie(_) => ResourceKind::Cookie,
    }
}

impl Resource {
    /// The kind tag of this resource.
    pub fn kind(&self) -> (k: ResourceKind)
        ensures
            k == spec_kind_of(self@),
    {
        match self {
            Resource::Request(_) => ResourceKind::Request,
            Resource::Response(_) => ResourceKind::Response,
            Resource::Cookie(_) => ResourceKind::Cookie,
        }
    }
}

} // verus!
