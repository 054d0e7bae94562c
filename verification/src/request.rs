//! The request half of the caller-facing surface: methods, the parsed
//! request target, user headers, and the body.

use vstd::prelude::*;
use vstd::string::StringSliceAdditionalSpecFns;
use vstd::string::StrSliceExecFns;
use vstd::utf8::encode_utf8;

verus! {

/// Compares two byte strings.
pub fn bytes_eq(a: &Vec<u8>, b: &Vec<u8>) -> (r: bool)
    ensures
        r == (a@ == b@),
{
    if a.len() != b.len() {
        assert(a@ != b@);
        return false;
    }
    let mut i: usize = 0;
    while i < a.len()
        invariant
            i <= a.len(),
            a.len() == b.len(),
            forall|j: int| 0 <= j < i ==> a@[j] == b@[j],
        decreases a.len() - i,
    {
        if a[i] != b[i] {
            return false;
        }
        i = i + 1;
    }
    proof {
        assert(a@ =~= b@);
    }
    true
}

/// A request method; the usual ones by name, anything else as a string.
#[derive(Debug, Clone)]
pub enum Method {
    Get,
    Post,
    Put,
    Delete,
    Head,
    Patch,
    Options,
    Other(String),
}

impl Method {
    /// The octets of the method name as it goes on the wire.
    pub open spec fn spec_bytes(self) -> Seq<u8> {
        match self {
            Method::Get => "GET".spec_bytes(),
            Method::Post => "POST".spec_bytes(),
            Method::Put => "PUT".spec_bytes(),
            Method::Delete => "DELETE".spec_bytes(),
            Method::Head => "HEAD".spec_bytes(),
            Method::Patch => "PATCH".spec_bytes(),
            Method::Options => "OPTIONS".spec_bytes(),
            Method::Other(s) => encode_utf8(s@),
        }
    }

    /// The method name.
    pub fn as_ref(&self) -> (r: &str)
        ensures
            r.spec_bytes() == self.spec_bytes(),
    {
        match self {
            Method::Get => "GET",
            Method::Post => "POST",
            Method::Put => "PUT",
            Method::Delete => "DELETE",
            Method::Head => "HEAD",
            Method::Patch => "PATCH",
            Method::Options => "OPTIONS",
            Method::Other(s) => s.as_str(),
        }
    }

    /// The octets of the method name.
    pub fn bytes(&self) -> (r: Vec<u8>)
        ensures
            r@ == self.spec_bytes(),
    {
        self.as_ref().as_bytes_vec()
    }
}

/// A parsed request target: what the URL parser hands the core. The host
/// is empty exactly when the URL has no authority.
#[derive(Debug, Clone)]
pub struct UrlParts {
    pub scheme: Vec<u8>,
    pub host: Vec<u8>,
    pub port: Option<u16>,
    pub path: Vec<u8>,
    pub query: Option<Vec<u8>>,
}

/// A request: target, method, user headers as ordered name-value pairs
/// (duplicates permitted and preserved), and body octets.
#[derive(Debug, Clone)]
pub struct Request {
    pub url: UrlParts,
    pub method: Method,
    pub headers: Vec<(Vec<u8>, Vec<u8>)>,
    pub body: Vec<u8>,
}

impl Request {
    pub fn new(
        method: Method,
        url: UrlParts,
        headers: Vec<(Vec<u8>, Vec<u8>)>,
        body: Vec<u8>,
    ) -> (r: Request)
        ensures
            r.method == method,
            r.url == url,
            r.headers == headers,
            r.body == body,
    {
        Request { url, method, headers, body }
    }

    pub fn head(url: UrlParts) -> (r: Request)
        ensures
            r.method == Method::Head,
            r.url == url,
            r.headers@ =~= Seq::<(Vec<u8>, Vec<u8>)>::empty(),
            r.body@ =~= Seq::<u8>::empty(),
    {
        Request { url, method: Method::Head, headers: Vec::new(), body: Vec::new() }
    }

    pub fn get(url: UrlParts) -> (r: Request)
        ensures
            r.method == Method::Get,
            r.url == url,
            r.headers@ =~= Seq::<(Vec<u8>, Vec<u8>)>::empty(),
            r.body@ =~= Seq::<u8>::empty(),
    {
        Request { url, method: Method::Get, headers: Vec::new(), body: Vec::new() }
    }

    pub fn delete(url: UrlParts) -> (r: Request)
        ensures
            r.method == Method::Delete,
            r.url == url,
            r.headers@ =~= Seq::<(Vec<u8>, Vec<u8>)>::empty(),
            r.body@ =~= Seq::<u8>::empty(),
    {
        Request { url, method: Method::Delete, headers: Vec::new(), body: Vec::new() }
    }
}

/// The decimal digits of a port number.
pub open spec fn spec_dec_digits(p: int) -> Seq<u8>
    decreases p,
{
    if p < 10 {
        seq![(0x30 + p) as u8]
    } else {
        spec_dec_digits(p / 10) + seq![(0x30 + p % 10) as u8]
    }
}

/// Writes the decimal digits of a port number.
pub fn write_dec_digits(out: &mut Vec<u8>, p: u16)
    ensures
        final(out)@ == old(out)@ + spec_dec_digits(p as int),
    decreases p,
{
    if p < 10 {
        out.push(0x30 + (p as u8));
        assert(out@ =~= old(out)@ + spec_dec_digits(p as int));
    } else {
        write_dec_digits(out, p / 10);
        out.push(0x30 + ((p % 10) as u8));
        assert(out@ =~= old(out)@ + spec_dec_digits(p as int));
    }
}

/// The `:path` pseudo-header: the path, then `?` and the query if any.
pub open spec fn spec_path_bytes(url: UrlParts) -> Seq<u8> {
    match url.query {
        Some(q) => url.path@ + seq![0x3fu8] + q@,
        None => url.path@,
    }
}

/// The `:authority` pseudo-header: the host, then `:` and the port if any.
pub open spec fn spec_authority_bytes(url: UrlParts) -> Seq<u8> {
    match url.port {
        Some(p) => url.host@ + seq![0x3au8] + spec_dec_digits(p as int),
        None => url.host@,
    }
}

/// The header list a request goes out with: the four pseudo-headers first,
/// then the caller's headers with their names lowercased, duplicates
/// preserved in order.
pub open spec fn spec_request_header_list(req: Request) -> Seq<(Seq<u8>, Seq<u8>)> {
    seq![
        (":method".spec_bytes(), req.method.spec_bytes()),
        (":scheme".spec_bytes(), req.url.scheme@),
        (":path".spec_bytes(), spec_path_bytes(req.url)),
        (":authority".spec_bytes(), spec_authority_bytes(req.url)),
    ] + Seq::new(
        req.headers@.len(),
        |i: int|
            (crate::response::spec_lower(req.headers@[i].0@), req.headers@[i].1@),
    )
}

impl Request {
    /// Builds the wire header list: pseudo-headers derived from the method
    /// and target, then the lowercased caller headers. A target without a
    /// host has no `:authority` and is refused.
    pub fn build_header_list(&self) -> (r: Result<Vec<(Vec<u8>, Vec<u8>)>, crate::types::RequestError>)
        ensures
            ({
                match r {
                    Ok(hs) => crate::hpack::spec_headers_view(hs@) == spec_request_header_list(
                        *self,
                    ) && self.url.host@.len() > 0,
                    Err(e) => e == crate::types::RequestError::AuthorityCannotBeBase
                        && self.url.host@.len() == 0,
                }
            }),
    {
        if self.url.host.len() == 0 {
            return Err(crate::types::RequestError::AuthorityCannotBeBase);
        }
        let mut out: Vec<(Vec<u8>, Vec<u8>)> = Vec::new();
        let method_name = ":method".as_bytes_vec();
        out.push((method_name, self.method.bytes()));
        let scheme_name = ":scheme".as_bytes_vec();
        out.push((scheme_name, crate::frame::subvec(&self.url.scheme, 0, self.url.scheme.len())));
        let mut path = crate::frame::subvec(&self.url.path, 0, self.url.path.len());
        match &self.url.query {
            Some(q) => {
                path.push(0x3f);
                crate::frame::append_bytes(&mut path, q);
            },
            None => {},
        }
        assert(path@ =~= spec_path_bytes(self.url));
        let path_name = ":path".as_bytes_vec();
        out.push((path_name, path));
        let mut authority = crate::frame::subvec(&self.url.host, 0, self.url.host.len());
        match self.url.port {
            Some(p) => {
                authority.push(0x3a);
                write_dec_digits(&mut authority, p);
            },
            None => {},
        }
        assert(authority@ =~= spec_authority_bytes(self.url));
        let authority_name = ":authority".as_bytes_vec();
        out.push((authority_name, authority));
        let ghost pseudo = seq![
            (":method".spec_bytes(), self.method.spec_bytes()),
            (":scheme".spec_bytes(), self.url.scheme@),
            (":path".spec_bytes(), spec_path_bytes(self.url)),
            (":authority".spec_bytes(), spec_authority_bytes(self.url)),
        ];
        assert(out@.len() == 4);
        assert(crate::hpack::spec_headers_view(out@)[0] == pseudo[0]);
        assert(crate::hpack::spec_headers_view(out@)[1] == pseudo[1]);
        assert(crate::hpack::spec_headers_view(out@)[2] == pseudo[2]);
        assert(crate::hpack::spec_headers_view(out@)[3] == pseudo[3]);
        assert(crate::hpack::spec_headers_view(out@) =~= pseudo);
        let ghost lowered = Seq::new(
            self.headers@.len(),
            |i: int|
                (crate::response::spec_lower(self.headers@[i].0@), self.headers@[i].1@),
        );
        let mut i: usize = 0;
        while i < self.headers.len()
            invariant
                i <= self.headers@.len(),
                lowered == Seq::new(
                    self.headers@.len(),
                    |k: int|
                        (crate::response::spec_lower(self.headers@[k].0@), self.headers@[k].1@),
                ),
                pseudo == seq![
                    (":method".spec_bytes(), self.method.spec_bytes()),
                    (":scheme".spec_bytes(), self.url.scheme@),
                    (":path".spec_bytes(), spec_path_bytes(self.url)),
                    (":authority".spec_bytes(), spec_authority_bytes(self.url)),
                ],
                crate::hpack::spec_headers_view(out@) =~= pseudo + lowered.subrange(0, i as int),
            decreases self.headers@.len() - i,
        {
            let name = crate::response::lower_bytes(&self.headers[i].0);
            let value = crate::frame::subvec(&self.headers[i].1, 0, self.headers[i].1.len());
            assert(value@ =~= self.headers@[i as int].1@);
            let ghost prev = crate::hpack::spec_headers_view(out@);
            let ghost element = (name@, value@);
            out.push((name, value));
            assert(crate::hpack::spec_headers_view(out@) =~= prev + seq![element]);
            assert(lowered[i as int] == element);
            assert((pseudo + lowered.subrange(0, i as int)) + seq![element] =~= pseudo
                + lowered.subrange(0, i as int + 1));
            i = i + 1;
        }
        assert(lowered.subrange(0, lowered.len() as int) =~= lowered);
        assert(crate::hpack::spec_headers_view(out@) =~= spec_request_header_list(*self));
        Ok(out)
    }
}

} // verus!
