//! What client and server say to each other.

use vstd::prelude::*;

verus! {

/// Tells the receiver whether the blob is a compressed file or directory.
pub const KIND_HEADER: &'static str = "x-lager-kind";

/// Header in which a client reports its hostname.
pub const CLIENT_HEADER: &'static str = "x-halide-cache-client";

/// A header of a request or a response.
#[derive(Debug)]
pub struct Header {
    pub name: &'static str,
    pub value: String,
}

/// Headers as pairs of texts.
pub open spec fn pairs(headers: Seq<Header>) -> Seq<(Seq<char>, Seq<char>)> {
    Seq::new(headers.len(), |i: int| (headers[i].name@, headers[i].value@))
}

pub broadcast proof fn lemma_pairs_push(headers: Seq<Header>, h: Header)
    ensures
        #[trigger] pairs(headers.push(h)) == pairs(headers).push((h.name@, h.value@)),
{
    assert(pairs(headers.push(h)) =~= pairs(headers).push((h.name@, h.value@)));
}

/// Adds a header.
pub fn put_header(headers: &mut Vec<Header>, name: &'static str, value: String)
    ensures
        pairs(final(headers)@) == pairs(old(headers)@).push((name@, value@)),
{
    broadcast use lemma_pairs_push;

    headers.push(Header { name, value });
}

/// The methods of the blob endpoints.
#[derive(Clone, Copy, Debug, PartialEq, Eq, Structural)]
pub enum Method {
    Get,
    Put,
}

/// A request for a blob. The body of an upload is the blob.
#[derive(Debug)]
pub struct BlobRequest {
    pub method: Method,
    pub url: String,
    pub headers: Vec<Header>,
}

/// A request with its texts as sequences.
pub struct BlobRequestView {
    pub method: Method,
    pub url: Seq<char>,
    pub headers: Seq<(Seq<char>, Seq<char>)>,
}

impl View for BlobRequest {
    type V = BlobRequestView;

    open spec fn view(&self) -> BlobRequestView {
        BlobRequestView { method: self.method, url: self.url@, headers: pairs(self.headers@) }
    }
}

/// What the server sends behind the headers.
#[derive(Debug)]
pub enum Body {
    Empty,
    Text(String),
    /// The opened blob.
    Blob,
}

/// A response of the blob endpoints.
#[derive(Debug)]
pub struct Response {
    pub status: u16,
    pub headers: Vec<Header>,
    pub body: Body,
}

/// A response with its texts as sequences.
pub struct ResponseView {
    pub status: u16,
    pub headers: Seq<(Seq<char>, Seq<char>)>,
    pub body: BodyView,
}

/// A body with its text as a sequence.
pub enum BodyView {
    Empty,
    Text(Seq<char>),
    Blob,
}

impl View for Body {
    type V = BodyView;

    open spec fn view(&self) -> BodyView {
        match self {
            Body::Empty => BodyView::Empty,
            Body::Text(s) => BodyView::Text(s@),
            Body::Blob => BodyView::Blob,
        }
    }
}

impl View for Response {
    type V = ResponseView;

    open spec fn view(&self) -> ResponseView {
        ResponseView { status: self.status, headers: pairs(self.headers@), body: self.body@ }
    }
}

/// A response without headers and body.
pub open spec fn bare(status: u16) -> ResponseView {
    ResponseView { status, headers: Seq::empty(), body: BodyView::Empty }
}

/// A response without headers that says something.
pub open spec fn saying(status: u16, text: Seq<char>) -> ResponseView {
    ResponseView { status, headers: Seq::empty(), body: BodyView::Text(text) }
}

/// Makes a response without headers and body.
pub fn bare_response(status: u16) -> (r: Response)
    ensures
        r@ == bare(status),
{
    let r = Response { status, headers: Vec::new(), body: Body::Empty };
    assert(r@.headers =~= Seq::empty());
    r
}

/// Makes a response without headers that says something.
pub fn text_response(status: u16, text: &str) -> (r: Response)
    ensures
        r@ == saying(status, text@),
{
    let r = Response { status, headers: Vec::new(), body: Body::Text(text.to_owned()) };
    assert(r@.headers =~= Seq::empty());
    r
}

/// The pairs of headers are their names and values, one for one.
pub proof fn law_pairs_are_those_of_the_headers(headers: Seq<Header>, i: int)
    requires
        0 <= i < headers.len(),
    ensures
        pairs(headers).len() == headers.len(),
        pairs(headers)[i].0 == headers[i].name@,
        pairs(headers)[i].1 == headers[i].value@,
{
}

/// A plain response has the status that it was made with and no headers. It says what it was
/// made to say, or nothing.
pub proof fn law_plain_responses_say_no_more(status: u16, text: Seq<char>)
    ensures
        bare(status).status == status,
        bare(status).headers.len() == 0,
        bare(status).body is Empty,
        saying(status, text).status == status,
        saying(status, text).headers.len() == 0,
        saying(status, text).body == BodyView::Text(text),
{
}

/// Client and server agree on two headers, which are not the same.
pub proof fn law_headers_have_names()
    ensures
        KIND_HEADER@ == "x-lager-kind"@,
        CLIENT_HEADER@ == "x-halide-cache-client"@,
        KIND_HEADER@ != CLIENT_HEADER@,
{
    reveal_strlit("x-lager-kind");
    reveal_strlit("x-halide-cache-client");
    assert(KIND_HEADER@.len() != CLIENT_HEADER@.len());
}

/// Requests and responses are viewed as they are.
pub proof fn law_messages_are_viewed_as_they_are(request: BlobRequest, response: Response, i: int)
    ensures
        request@.method == request.method,
        request@.url == request.url@,
        request@.headers.len() == request.headers@.len(),
        0 <= i < request.headers@.len() ==> request@.headers[i] == (
            request.headers@[i].name@,
            request.headers@[i].value@,
        ),
        response@.status == response.status,
        response@.headers.len() == response.headers@.len(),
        0 <= i < response.headers@.len() ==> response@.headers[i] == (
            response.headers@[i].name@,
            response.headers@[i].value@,
        ),
        response@.body is Empty <==> response.body is Empty,
        response@.body is Blob <==> response.body is Blob,
        response.body matches Body::Text(s) ==> response@.body == BodyView::Text(s@),
{
}

} // verus!
