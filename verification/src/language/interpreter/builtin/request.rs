use vstd::prelude::*;
use crate::language::strmap::StrMap;
use crate::language::text::text;
use crate::cesium::sdk::{utf8, str_bytes};
use super::base64_text::{base64_standard, base64_encode};

verus! {

/// The body of an HTTP request.
#[derive(Debug, Clone)]
pub enum HttpBodyVariant {
    Text(String),
    Bytes(Vec<u8>),
    Empty,
}

/// The text the body gives to a route: the text itself, nothing for an
/// empty body, and a notice for a binary body.
pub open spec fn body_text(b: HttpBodyVariant) -> Seq<char> {
    match b {
        HttpBodyVariant::Empty => Seq::empty(),
        HttpBodyVariant::Text(t) => t@,
        HttpBodyVariant::Bytes(_) => "[Binary Body - Use body_base64() for content]"@,
    }
}

/// The body in base64: of the UTF-8 bytes of a text, of the bytes of a
/// binary body, nothing for an empty body.
pub open spec fn body_base64(b: HttpBodyVariant) -> Seq<char> {
    match b {
        HttpBodyVariant::Empty => Seq::empty(),
        HttpBodyVariant::Text(t) => base64_standard(utf8(t@)),
        HttpBodyVariant::Bytes(v) => base64_standard(v@),
    }
}

/// A body whose base64 encoding fits in memory.
pub open spec fn body_encodable(b: HttpBodyVariant) -> bool {
    match b {
        HttpBodyVariant::Empty => true,
        HttpBodyVariant::Text(t) => (utf8(t@).len() / 3) * 4 + 4 <= usize::MAX,
        HttpBodyVariant::Bytes(v) => (v@.len() / 3) * 4 + 4 <= usize::MAX,
    }
}

/// The text of a body (see `body_text`).
pub fn body_text_of(b: &HttpBodyVariant) -> (r: String)
    ensures
        r@ == body_text(*b),
{
    match b {
        HttpBodyVariant::Empty => String::new(),
        HttpBodyVariant::Text(t) => t.clone(),
        HttpBodyVariant::Bytes(_) => text("[Binary Body - Use body_base64() for content]"),
    }
}

/// The base64 text of a body (see `body_base64`).
pub fn body_base64_of(b: &HttpBodyVariant) -> (r: String)
    requires
        body_encodable(*b),
    ensures
        r@ == body_base64(*b),
{
    match b {
        HttpBodyVariant::Empty => String::new(),
        HttpBodyVariant::Text(t) => {
            let bytes = str_bytes(t.as_str());
            base64_encode(bytes.as_slice())
        },
        HttpBodyVariant::Bytes(v) => base64_encode(v.as_slice()),
    }
}

/// An HTTP request as routes see it: its parameters, headers and body.
pub struct Request {
    pub params: StrMap,
    pub headers: StrMap,
    pub body: HttpBodyVariant,
}

impl Request {
    /// A request with the given parts.
    pub fn new(params: StrMap, headers: StrMap, body: HttpBodyVariant) -> (r: Request)
        ensures
            r.params == params,
            r.headers == headers,
            r.body == body,
    {
        Request { params, headers, body }
    }

    /// A request with no parameters, no headers and an empty body.
    pub fn empty() -> (r: Request)
        ensures
            r.params.wf(),
            r.headers.wf(),
            r.params@ == Map::<Seq<char>, Seq<char>>::empty(),
            r.headers@ == Map::<Seq<char>, Seq<char>>::empty(),
            r.body is Empty,
    {
        Request { params: StrMap::new(), headers: StrMap::new(), body: HttpBodyVariant::Empty }
    }

    /// The value of parameter `name`, or nothing when there is none.
    pub fn get_param(&self, name: &str) -> (r: String)
        requires
            self.params.wf(),
        ensures
            r@ == (if self.params@.dom().contains(name@) { self.params@[name@] } else { Seq::empty() }),
    {
        match self.params.get(name) {
            Some(v) => v.clone(),
            None => String::new(),
        }
    }

    /// The value of header `name`, or nothing when there is none.
    pub fn get_header(&self, name: &str) -> (r: String)
        requires
            self.headers.wf(),
        ensures
            r@ == (if self.headers@.dom().contains(name@) { self.headers@[name@] } else { Seq::empty() }),
    {
        match self.headers.get(name) {
            Some(v) => v.clone(),
            None => String::new(),
        }
    }

    /// The body as text (see `body_text`).
    pub fn get_body(&self) -> (r: String)
        ensures
            r@ == body_text(self.body),
    {
        body_text_of(&self.body)
    }

    /// The body in base64 (see `body_base64`).
    pub fn get_body_as_base64(&self) -> (r: String)
        requires
            body_encodable(self.body),
        ensures
            r@ == body_base64(self.body),
    {
        body_base64_of(&self.body)
    }

    /// Whether the body is binary.
    pub fn is_body_binary(&self) -> (r: bool)
        ensures
            r == (self.body is Bytes),
    {
        match &self.body {
            HttpBodyVariant::Bytes(_) => true,
            _ => false,
        }
    }
}

} // verus!
