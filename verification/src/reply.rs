//! Replies: what the server sends back, as plain values.
use vstd::prelude::*;
use crate::text::{replace_text, replaced};
use crate::types::AppUuid;

verus! {

/// The body of a reply.
pub enum Body {
    Empty,
    Text(String),
    /// A stretch of the requested file, read through a buffer of the given size.
    File { start: u64, end: u64, buf_size: usize },
}

/// A reply.
pub struct Reply {
    pub status: u16,
    pub headers: Vec<(String, String)>,
    pub body: Body,
}

#[verifier::ext_equal]
pub ghost enum BodyView {
    Empty,
    Text(Seq<char>),
    File { start: u64, end: u64, buf_size: usize },
}

#[verifier::ext_equal]
pub ghost struct ReplyView {
    pub status: u16,
    pub headers: Seq<(Seq<char>, Seq<char>)>,
    pub body: BodyView,
}

impl View for Body {
    type V = BodyView;

    open spec fn view(&self) -> BodyView {
        match self {
            Body::Empty => BodyView::Empty,
            Body::Text(t) => BodyView::Text(t@),
            Body::File { start, end, buf_size } => BodyView::File {
                start: *start,
                end: *end,
                buf_size: *buf_size,
            },
        }
    }
}

/// The views of a list of headers.
pub open spec fn headers_view(headers: Seq<(String, String)>) -> Seq<(Seq<char>, Seq<char>)> {
    headers.map_values(|h: (String, String)| (h.0@, h.1@))
}

impl View for Reply {
    type V = ReplyView;

    open spec fn view(&self) -> ReplyView {
        ReplyView {
            status: self.status,
            headers: headers_view(self.headers@),
            body: self.body@,
        }
    }
}

/// A reply with a status and nothing else.
pub open spec fn bare_reply(status: u16) -> ReplyView {
    ReplyView { status, headers: seq![], body: BodyView::Empty }
}

/// A reply with a text and no headers of its own.
pub open spec fn text_reply(status: u16, text: Seq<char>) -> ReplyView {
    ReplyView { status, headers: seq![], body: BodyView::Text(text) }
}

/// A reply with an XML document.
pub open spec fn xml_reply(document: Seq<char>) -> ReplyView {
    ReplyView {
        status: 200,
        headers: seq![("Content-Type"@, "text/xml"@)],
        body: BodyView::Text(document),
    }
}

impl Reply {
    /// A reply with a status and nothing else.
    pub fn bare(status: u16) -> (r: Reply)
        ensures
            r@ == bare_reply(status),
    {
        let r = Reply { status, headers: Vec::new(), body: Body::Empty };
        assert(r@.headers =~= seq![]);
        r
    }

    /// A reply with a text and no headers of its own.
    pub fn text(status: u16, text: String) -> (r: Reply)
        ensures
            r@ == text_reply(status, text@),
    {
        let r = Reply { status, headers: Vec::new(), body: Body::Text(text) };
        assert(r@.headers =~= seq![]);
        r
    }

    /// A reply with an XML document.
    pub fn xml(document: String) -> (r: Reply)
        ensures
            r@ == xml_reply(document@),
    {
        let mut headers: Vec<(String, String)> = Vec::new();
        headers.push(("Content-Type".to_string(), "text/xml".to_string()));
        let r = Reply { status: 200, headers, body: Body::Text(document) };
        assert(r@.headers =~= seq![("Content-Type"@, "text/xml"@)]);
        r
    }
}

/// The name under which the server introduces itself.
pub const SERVER_NAME: &'static str = "Actix-Rednithin-Dev";

/// The device description: a page with the server's name and identity filled in.
pub open spec fn root_page(template: Seq<char>, uuid: Seq<char>) -> Seq<char> {
    replaced(replaced(template, "{name}"@, SERVER_NAME@), "{uuid}"@, uuid)
}

/// Answers a request for the device description.
pub fn root_handler(template: &str, uuid: &AppUuid) -> (r: Reply)
    ensures
        r@ == xml_reply(root_page(template@, uuid@)),
{
    proof {
        reveal_strlit("{name}");
        reveal_strlit("{uuid}");
    }
    let named = replace_text(template, "{name}", SERVER_NAME);
    let text = uuid.text();
    Reply::xml(replace_text(named.as_str(), "{uuid}", text.as_str()))
}

/// Answers a request for the description of the content directory.
pub fn content_desc_handler(page: &str) -> (r: Reply)
    ensures
        r@ == xml_reply(page@),
{
    Reply::xml(page.to_string())
}

/// Answers a request for the description of the connection manager.
pub fn connection_desc_handler(page: &str) -> (r: Reply)
    ensures
        r@ == xml_reply(page@),
{
    Reply::xml(page.to_string())
}

/// The connection manager's only answer: no protocols in either direction.
pub const PROTOCOL_INFO: &'static str = "<?xml version=\"1.0\" encoding=\"UTF-8\"?>\n<s:Envelope xmlns:s=\"http://schemas.xmlsoap.org/soap/envelope/\" xmlns=\"urn:schemas-upnp-org:service-1-0\" s:encodingStyle=\"http://schemas.xmlsoap.org/soap/encoding/\">\n   <s:Body>\n      <u:GetProtocolInfoResponse xmlns:u=\"urn:schemas-upnp-org:service:ConnectionManager:1\">\n         <Source></Source>\n         <Sink></Sink>\n      </u:GetProtocolInfoResponse>\n   </s:Body>\n</s:Envelope>\n";

/// Answers any request to the connection manager.
pub fn connection_handler() -> (r: Reply)
    ensures
        r@ == xml_reply(PROTOCOL_INFO@),
{
    Reply::xml(PROTOCOL_INFO.to_string())
}

/// Answers a request for the start page.
pub fn home_handler() -> (r: Reply)
    ensures
        r@ == text_reply(200, "Home page"@),
{
    Reply::text(200, "Home page".to_string())
}

/// Greets a user.
pub fn user_handler(user_id: &str) -> (r: Reply)
    ensures
        r@ == text_reply(200, "Hello "@ + user_id@),
{
    Reply::text(200, "Hello ".to_string().concat(user_id))
}

/// Answers a request that has failed.
pub fn error_handler(err: &str) -> (r: Reply)
    ensures
        r@ == text_reply(500, "Something went wrong: "@ + err@),
{
    Reply::text(500, "Something went wrong: ".to_string().concat(err))
}

} // verus!
