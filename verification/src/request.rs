//! Requests: a method, a URI, headers, and a body that can be taken once.
use vstd::prelude::*;
use vstd::string::*;

use crate::method::Method;

verus! {

/// A request. Its body is held until taken, and can be taken once.
pub struct Request<T> {
    method: Method,
    uri: String,
    headers: Vec<(String, Vec<u8>)>,
    body: Option<T>,
}

impl<T> Request<T> {
    pub closed spec fn req_method(&self) -> Method {
        self.method
    }

    pub closed spec fn req_uri(&self) -> String {
        self.uri
    }

    /// Header names and values, in order.
    pub closed spec fn req_headers(&self) -> Vec<(String, Vec<u8>)> {
        self.headers
    }

    pub fn method(&self) -> (r: &Method)
        ensures
            *r == self.req_method(),
    {
        &self.method
    }

    pub fn uri(&self) -> (r: &String)
        ensures
            *r == self.req_uri(),
    {
        &self.uri
    }

    pub fn headers(&self) -> (r: &Vec<(String, Vec<u8>)>)
        ensures
            *r == self.req_headers(),
    {
        &self.headers
    }

    /// The body, where it has not been taken yet.
    pub closed spec fn pending_body(&self) -> Option<T> {
        self.body
    }

    pub fn new(method: Method, uri: String, headers: Vec<(String, Vec<u8>)>, body: Option<T>) -> (r:
        Request<T>)
        ensures
            r.req_method() == method,
            r.req_uri() == uri,
            r.req_headers() == headers,
            r.pending_body() == body,
    {
        Request { method, uri, headers, body }
    }

    /// Take the body stream.
    /// Return `None` if it is already taken by either `take_stream` or `take_as_future`.
    pub fn take_stream(&mut self) -> (r: Option<T>)
        ensures
            r == old(self).pending_body(),
            final(self).pending_body() is None,
            final(self).req_method() == old(self).req_method(),
            final(self).req_uri() == old(self).req_uri(),
            final(self).req_headers() == old(self).req_headers(),
    {
        self.body.take()
    }
}

/// What a body made of `chunks` resolves to when read as one value: its
/// first chunk, or nothing where it has none.
pub open spec fn first_chunk(chunks: Seq<Vec<u8>>) -> Seq<u8> {
    if chunks.len() > 0 {
        chunks[0]@
    } else {
        Seq::empty()
    }
}

/// What reading a body as one value resolves to, given what reading its
/// first chunk gave: that chunk; an empty one where the body ended at once;
/// the body's error where reading failed.
pub fn first_item_or_default<E>(head: Result<Option<Vec<u8>>, E>) -> (r: Result<Vec<u8>, E>)
    ensures
        head matches Ok(Some(v)) ==> (r matches Ok(w) && w@ == v@),
        head matches Ok(None) ==> (r matches Ok(w) && w@.len() == 0),
        head matches Err(e) ==> (r matches Err(f) && f == e),
{
    match head {
        Ok(Some(v)) => Ok(v),
        Ok(None) => Ok(Vec::new()),
        Err(e) => Err(e),
    }
}

impl Request<Vec<Vec<u8>>> {
    /// Take the body, resolved to its first chunk (or an empty one where it
    /// has none).
    /// Return `None` if it is already taken by either `take_stream` or `take_as_future`.
    pub fn take_as_future(&mut self) -> (r: Option<Vec<u8>>)
        ensures
            r is Some <==> old(self).pending_body() is Some,
            r matches Some(v) ==> v@ == first_chunk(old(self).pending_body()->0@),
            old(self).pending_body() matches Some(c) ==> (c@.len() > 0 ==> (r matches Some(v)
                && v@ == c@[0]@)),
            old(self).pending_body() matches Some(c) ==> (c@.len() == 0 ==> (r matches Some(v)
                && v@.len() == 0)),
            final(self).pending_body() is None,
            final(self).req_method() == old(self).req_method(),
            final(self).req_uri() == old(self).req_uri(),
            final(self).req_headers() == old(self).req_headers(),
    {
        match self.take_stream() {
            Some(chunks) => {
                let head: Option<Vec<u8>> = if chunks.len() > 0 {
                    Some(chunks[0].clone())
                } else {
                    None
                };
                match first_item_or_default::<()>(Ok(head)) {
                    Ok(v) => Some(v),
                    Err(_) => None,
                }
            },
            None => None,
        }
    }
}

/// A request whose body is `body`, encoded in UTF-8, as a single chunk.
pub fn from_raw_values(method: Method, uri: String, body: String) -> (r: Request<Vec<Vec<u8>>>)
    ensures
        r.req_method() == method,
        r.req_uri() == uri,
        r.req_headers()@.len() == 0,
        r.pending_body() matches Some(chunks) && chunks@.len() == 1 && chunks@[0]@
            == vstd::utf8::encode_utf8(body@),
{
    let bytes = body.as_str().as_bytes_vec();
    let mut chunks: Vec<Vec<u8>> = Vec::new();
    chunks.push(bytes);
    Request { method, uri, headers: Vec::new(), body: Some(chunks) }
}

/// A request without a body.
pub fn empty_body(method: Method, uri: String) -> (r: Request<Vec<Vec<u8>>>)
    ensures
        r.req_method() == method,
        r.req_uri() == uri,
        r.req_headers()@.len() == 0,
        r.pending_body() is None,
{
    Request { method, uri, headers: Vec::new(), body: None }
}

/// A body read as one value is its first chunk: the chunk at place 0
/// whatever follows it, and nothing only where there is no chunk at all.
pub proof fn law_body_value_is_first_chunk(chunks: Seq<Vec<u8>>, more: Seq<Vec<u8>>)
    ensures
        chunks.len() > 0 ==> first_chunk(chunks) == chunks[0]@,
        chunks.len() > 0 ==> first_chunk(chunks + more) == first_chunk(chunks),
        chunks.len() == 0 ==> first_chunk(chunks) == Seq::<u8>::empty(),
{
    if chunks.len() > 0 {
        assert((chunks + more)[0] == chunks[0]);
    }
}

} // verus!
