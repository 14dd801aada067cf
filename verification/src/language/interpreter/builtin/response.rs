use vstd::prelude::*;
use crate::language::strmap::StrMap;
use crate::language::text::text;

verus! {

/// The header a sent response gets when it has a body and no content type.
pub open spec fn default_content_type() -> (Seq<char>, Seq<char>) {
    ("Content-Type"@, "text/plain; charset=utf-8"@)
}

/// The headers of a response once sent: a content type is added when it
/// has a body and none was set.
pub open spec fn sent_headers(headers: Map<Seq<char>, Seq<char>>, has_body: bool) -> Map<Seq<char>, Seq<char>> {
    if !headers.dom().contains(default_content_type().0) && has_body {
        headers.insert(default_content_type().0, default_content_type().1)
    } else {
        headers
    }
}

/// Marks the response parts as sent: adds the default content type to
/// `headers` when there is a body and no content type yet.
pub fn add_default_content_type(headers: &mut StrMap, has_body: bool)
    requires
        old(headers).wf(),
    ensures
        final(headers).wf(),
        final(headers)@ == sent_headers(old(headers)@, has_body),
{
    if !headers.contains_key("Content-Type") && has_body {
        headers.insert(text("Content-Type"), text("text/plain; charset=utf-8"));
    }
}

/// An HTTP response being built by a route.
pub struct Response {
    pub status: u16,
    pub headers: StrMap,
    pub body: Option<String>,
    pub is_sent: bool,
}

impl Response {
    /// A response with status 200, no headers, no body, not sent.
    pub fn new() -> (r: Response)
        ensures
            r.status == 200,
            r.headers.wf(),
            r.headers@ == Map::<Seq<char>, Seq<char>>::empty(),
            r.body is None,
            !r.is_sent,
    {
        Response { status: 200, headers: StrMap::new(), body: None, is_sent: false }
    }

    /// Sets the body.
    pub fn body(&mut self, content: String) -> (r: &mut Self)
        ensures
            r.status == old(self).status,
            r.headers == old(self).headers,
            r.body == Some(content),
            r.is_sent == old(self).is_sent,
            *final(self) == *final(r),
    {
        self.body = Some(content);
        self
    }

    /// Marks the response as sent (see `sent_headers`).
    pub fn send(&mut self)
        requires
            old(self).headers.wf(),
        ensures
            final(self).status == old(self).status,
            final(self).headers.wf(),
            final(self).headers@ == sent_headers(old(self).headers@, old(self).body is Some),
            final(self).body == old(self).body,
            final(self).is_sent,
    {
        self.is_sent = true;
        let has_body = self.body.is_some();
        add_default_content_type(&mut self.headers, has_body);
    }

    /// Sets the status.
    pub fn status(&mut self, status: u16) -> (r: &mut Self)
        ensures
            r.status == status,
            r.headers == old(self).headers,
            r.body == old(self).body,
            r.is_sent == old(self).is_sent,
            *final(self) == *final(r),
    {
        self.status = status;
        self
    }

    /// Sets a header.
    pub fn set_header(&mut self, key: &str, value: &str) -> (r: &mut Self)
        requires
            old(self).headers.wf(),
        ensures
            r.status == old(self).status,
            r.headers.wf(),
            r.headers@ == old(self).headers@.insert(key@, value@),
            r.body == old(self).body,
            r.is_sent == old(self).is_sent,
            *final(self) == *final(r),
    {
        self.headers.insert(text(key), text(value));
        self
    }

    /// Whether the response has been sent.
    pub fn is_sent(&self) -> (r: bool)
        ensures
            r == self.is_sent,
    {
        self.is_sent
    }
}

} // verus!
