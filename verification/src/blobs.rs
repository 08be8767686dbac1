//! The blob endpoints: `GET`, `HEAD` and `PUT /v1/blobs/{address}`.

use crate::error::{Error, IoError, IoErrorKind};
use crate::http;
use crate::http::{
    bare_response, put_header, text_response, Body, Header, Response, KIND_HEADER,
};
use crate::lager::Kind;
use crate::metrics::Event;
use crate::remote;
use crate::remote::read_kind;
use crate::text;
use crate::text::{find_at, from_chars, to_chars, write_decimal};
use vstd::prelude::*;
use vstd::slice::slice_subrange;
#[allow(unused_imports)]
use vstd::string::StringSliceAdditionalSpecFns;

verus! {

/// A response, and the event with its bytes that is to be counted.
#[derive(Debug)]
pub struct Reply {
    pub response: Response,
    pub event: Option<(Event, u64)>,
}

/// What an opened blob is found to be: its kind and length, or that there is none. An
/// error is one of the server.
pub open spec fn found(opened: Result<(Kind, Result<u64, IoError>), Error>) -> Result<
    Option<(Kind, u64)>,
    Error,
> {
    match opened {
        Ok((kind, Ok(len))) => Ok(Some((kind, len))),
        Ok((kind, Err(e))) => Err(Error::Io(e)),
        Err(e) => if e is NotFound {
            Ok(None)
        } else {
            Err(e)
        },
    }
}

/// Takes what the opening of a blob came to.
pub fn open_blob(opened: Result<(Kind, Result<u64, IoError>), Error>) -> (r: Result<
    Option<(Kind, u64)>,
    Error,
>)
    ensures
        r == found(opened),
{
    match opened {
        Ok((kind, Ok(len))) => Ok(Some((kind, len))),
        Ok((_, Err(e))) => Err(Error::Io(e)),
        Err(Error::NotFound { .. }) => Ok(None),
        Err(e) => Err(e),
    }
}

/// The headers of a blob.
pub open spec fn blob_header_pairs(kind: Kind, len: u64) -> Seq<(Seq<char>, Seq<char>)> {
    seq![
        (KIND_HEADER@, kind.name()),
        ("content-type"@, "application/octet-stream"@),
        ("content-length"@, text::decimal(len as nat)),
    ]
}

fn blob_headers(kind: Kind, len: u64) -> (headers: Vec<Header>)
    ensures
        http::pairs(headers@) == blob_header_pairs(kind, len),
{
    let mut headers: Vec<Header> = Vec::new();
    assert(http::pairs(headers@) =~= Seq::empty());
    put_header(&mut headers, KIND_HEADER, kind.as_str().to_owned());
    put_header(&mut headers, "content-type", "application/octet-stream".to_owned());
    put_header(&mut headers, "content-length", write_decimal(len));
    assert(http::pairs(headers@) =~= blob_header_pairs(kind, len));
    headers
}

/// The response to a request for a blob that is there.
pub open spec fn blob_response(kind: Kind, len: u64, body: http::BodyView) -> http::ResponseView {
    http::ResponseView { status: 200, headers: blob_header_pairs(kind, len), body }
}

/// Answers whether a blob is there. Nothing is counted.
pub fn head(blob: &Result<Option<(Kind, u64)>, Error>) -> (r: Response)
    ensures
        r@ == match *blob {
            Ok(Some((kind, len))) => blob_response(kind, len, http::BodyView::Empty),
            Ok(None) => http::bare(404),
            Err(_) => http::bare(500),
        },
{
    match blob {
        Ok(Some((kind, len))) => Response {
            status: 200,
            headers: blob_headers(*kind, *len),
            body: Body::Empty,
        },
        Ok(None) => bare_response(404),
        Err(_) => bare_response(500),
    }
}

/// Answers a request for a blob: a hit with the bytes that are sent, a miss, or an error of
/// the server, which is not counted.
pub fn get(blob: &Result<Option<(Kind, u64)>, Error>) -> (r: Reply)
    ensures
        match *blob {
            Ok(Some((kind, len))) => {
                &&& r.response@ == blob_response(kind, len, http::BodyView::Blob)
                &&& r.event == Some((Event::Hit, len))
            },
            Ok(None) => r.response@ == http::bare(404) && r.event == Some((Event::Miss, 0u64)),
            Err(_) => r.response@ == http::bare(500) && r.event is None,
        },
{
    match blob {
        Ok(Some((kind, len))) => Reply {
            response: Response {
                status: 200,
                headers: blob_headers(*kind, *len),
                body: Body::Blob,
            },
            event: Some((Event::Hit, *len)),
        },
        Ok(None) => Reply { response: bare_response(404), event: Some((Event::Miss, 0)) },
        Err(_) => Reply { response: bare_response(500), event: None },
    }
}

proof fn lemma_differing_bits(acc: u8, x: u8, y: u8)
    ensures
        (acc | (x ^ y)) == 0 <==> acc == 0 && x == y,
{
    assert((acc | (x ^ y)) == 0 <==> acc == 0 && x == y) by (bit_vector);
}

/// Whether bytes are the same. All of them are looked at, whatever they are.
pub fn constant_time_eq(a: &[u8], b: &[u8]) -> (r: bool)
    ensures
        r == (a@ == b@),
{
    if a.len() != b.len() {
        return false;
    }
    let mut acc: u8 = 0;
    assert(a@.take(0) =~= b@.take(0));
    for i in 0..a.len()
        invariant
            a@.len() == b@.len(),
            acc == 0 <==> a@.take(i as int) == b@.take(i as int),
    {
        proof {
            lemma_differing_bits(acc, a@[i as int], b@[i as int]);
            let x = a@.take(i + 1);
            let y = b@.take(i + 1);
            assert(x.take(i as int) =~= a@.take(i as int));
            assert(y.take(i as int) =~= b@.take(i as int));
            assert(x =~= a@.take(i as int).push(a@[i as int]));
            assert(y =~= b@.take(i as int).push(b@[i as int]));
            if x == y {
                assert(x[i as int] == y[i as int]);
            }
        }
        acc = acc | (a[i] ^ b[i]);
    }
    assert(a@.take(a@.len() as int) =~= a@);
    assert(b@.take(a@.len() as int) =~= b@);
    acc == 0
}

/// Whether an upload is allowed: where a token is configured, the header must hold it.
pub open spec fn is_authorized(token: Option<String>, header: Option<&str>) -> bool {
    match token {
        None => true,
        Some(expected) => header matches Some(v) && v@ == "Bearer "@ + expected@,
    }
}

/// Checks the token of an upload.
pub fn authorized(token: &Option<String>, header: Option<&str>) -> (r: bool)
    ensures
        r == is_authorized(*token, header),
{
    let expected = match token {
        None => {
            return true;
        },
        Some(expected) => expected,
    };
    let value = match header {
        None => {
            return false;
        },
        Some(value) => value,
    };
    let chars = to_chars(value);
    let scheme = to_chars("Bearer ");
    let n: usize = scheme.len();
    let ghost wanted = scheme@ + expected@;
    if !find_at(chars.as_slice(), 0, scheme.as_slice()) {
        assert(wanted.subrange(0, n as int) =~= scheme@);
        return false;
    }
    let given = from_chars(slice_subrange(chars.as_slice(), n, chars.len()));
    proof {
        assert(value@ =~= scheme@ + given@);
        if value@ == wanted {
            assert(given@ =~= expected@);
        }
        if vstd::utf8::encode_utf8(given@) == vstd::utf8::encode_utf8(expected@) {
            text::lemma_encoding_is_injective(given@, expected@);
        }
    }
    constant_time_eq(given.as_str().as_bytes(), expected.as_str().as_bytes())
}

/// How an upload begins.
#[derive(Debug)]
pub enum Upload {
    /// It is refused.
    Refused(Reply),
    /// The body is stored as a blob of this kind.
    Accepted(Kind),
}

/// Begins an upload: it needs the token, where one is configured, and a kind.
pub fn put(token: &Option<String>, authorization: Option<&str>, kind: Option<&str>) -> (r:
    Upload)
    ensures
        match r {
            Upload::Refused(reply) => if !is_authorized(*token, authorization) {
                &&& reply.response@ == http::saying(401, "bearer token required\n"@)
                &&& reply.event == Some((Event::Unauthorized, 0u64))
            } else {
                &&& remote::named_kind(kind) is None
                &&& kind matches Some(v) ==> v@ != Kind::File.name() && v@ != Kind::Dir.name()
                &&& reply.response@ == http::saying(
                    400,
                    "x-lager-kind header must be 'file' or 'dir'\n"@,
                )
                &&& reply.event is None
            },
            Upload::Accepted(k) => {
                &&& is_authorized(*token, authorization)
                &&& remote::named_kind(kind) == Some(k)
                &&& kind matches Some(v) && v@ == k.name()
            },
        },
{
    if !authorized(token, authorization) {
        return Upload::Refused(
            Reply {
                response: text_response(401, "bearer token required\n"),
                event: Some((Event::Unauthorized, 0)),
            },
        );
    }
    proof {
        if let Some(v) = kind {
            remote::law_header_names_the_kind(v, Kind::File);
            remote::law_header_names_the_kind(v, Kind::Dir);
        }
    }
    match read_kind(kind) {
        None => Upload::Refused(
            Reply {
                response: text_response(400, "x-lager-kind header must be 'file' or 'dir'\n"),
                event: None,
            },
        ),
        Some(k) => Upload::Accepted(k),
    }
}

/// The response to an upload that was begun.
pub open spec fn put_response(stored: Option<Result<bool, Error>>) -> http::ResponseView {
    match stored {
        Some(Ok(new)) => http::bare(
            if new {
                201
            } else {
                200
            },
        ),
        Some(Err(e)) => if e matches Error::Io(io) && io.kind == IoErrorKind::FileTooLarge {
            http::saying(413, "blob exceeds --max-blob-size\n"@)
        } else {
            http::saying(400, "upload failed\n"@)
        },
        None => http::bare(500),
    }
}

/// What is counted of an upload that was begun.
pub open spec fn put_event(stored: Option<Result<bool, Error>>, len: u64) -> Option<(Event, u64)> {
    match stored {
        Some(Ok(new)) => Some(
            (
                if new {
                    Event::Upload
                } else {
                    Event::Duplicate
                },
                len,
            ),
        ),
        _ => None,
    }
}

/// Ends an upload, once it is known whether it was stored, and whether nothing stood there
/// before. None stands for a write that did not come to an end.
pub fn put_stored(stored: &Option<Result<bool, Error>>, len: u64) -> (r: Reply)
    ensures
        r.response@ == put_response(*stored),
        r.event == put_event(*stored, len),
{
    match stored {
        Some(Ok(new)) => {
            if *new {
                Reply { response: bare_response(201), event: Some((Event::Upload, len)) }
            } else {
                Reply { response: bare_response(200), event: Some((Event::Duplicate, len)) }
            }
        },
        Some(Err(Error::Io(e))) => {
            if e.kind == IoErrorKind::FileTooLarge {
                Reply {
                    response: text_response(413, "blob exceeds --max-blob-size\n"),
                    event: None,
                }
            } else {
                Reply { response: text_response(400, "upload failed\n"), event: None }
            }
        },
        Some(Err(_)) => Reply { response: text_response(400, "upload failed\n"), event: None },
        None => Reply { response: bare_response(500), event: None },
    }
}

/// Counts the bytes that pass through, so the upload size can be logged and accounted for
/// without a second pass, and stops with `FileTooLarge` once `limit` is exceeded.
#[derive(Clone, Copy, Debug)]
pub struct CountingReader {
    pub count: u64,
    pub limit: u64,
}

impl CountingReader {
    /// Counts from zero.
    pub fn new(limit: u64) -> (r: CountingReader)
        ensures
            r.count == 0,
            r.limit == limit,
    {
        CountingReader { count: 0, limit }
    }

    /// Takes note of bytes that were read.
    pub fn read(&mut self, n: u64) -> (r: Result<(), IoError>)
        requires
            old(self).count + n <= u64::MAX,
        ensures
            final(self).limit == old(self).limit,
            final(self).count == old(self).count + n,
            r is Ok <==> final(self).count <= final(self).limit,
            r matches Err(e) ==> e.kind == IoErrorKind::FileTooLarge && e.message@
                == "blob exceeds the configured maximum size"@,
    {
        self.count = self.count + n;
        if self.count > self.limit {
            return Err(
                IoError {
                    kind: IoErrorKind::FileTooLarge,
                    message: "blob exceeds the configured maximum size".to_owned(),
                },
            );
        }
        Ok(())
    }
}

/// An upload is allowed exactly if no token is configured or the header holds it, behind
/// `Bearer `.
pub proof fn law_token_is_needed(token: String, value: &str)
    ensures
        is_authorized(None, None),
        is_authorized(None, Some(value)),
        !is_authorized(Some(token), None),
        is_authorized(Some(token), Some(value)) <==> value@ == "Bearer "@ + token@,
{
}

/// A blob is sent with the name of its kind and its length.
pub proof fn law_blob_says_what_it_is(kind: Kind, len: u64, body: http::BodyView)
    ensures
        ({
            let r = blob_response(kind, len, body);
            &&& r.status == 200
            &&& r.body == body
            &&& r.headers.len() == 3
            &&& r.headers[0] == (KIND_HEADER@, kind.name())
            &&& r.headers[1] == ("content-type"@, "application/octet-stream"@)
            &&& r.headers[2].0 == "content-length"@
            &&& text::number(r.headers[2].1) == len
        }),
{
    text::law_decimal_reads_back(len as nat);
}

/// A blob is found if it was opened and measured. That there is none is no error, and any
/// other error is handed on.
pub proof fn law_blob_is_found(opened: Result<(Kind, Result<u64, IoError>), Error>)
    ensures
        found(opened) == Ok::<Option<(Kind, u64)>, Error>(None) <==> (opened matches Err(e)
            && e is NotFound),
        found(opened) matches Ok(Some((kind, len))) ==> opened == Ok::<
            (Kind, Result<u64, IoError>),
            Error,
        >((kind, Ok(len))),
        opened matches Ok((kind, Ok(len))) ==> found(opened) == Ok::<
            Option<(Kind, u64)>,
            Error,
        >(Some((kind, len))),
        opened matches Ok((_, Err(io))) ==> found(opened) == Err::<Option<(Kind, u64)>, Error>(
            Error::Io(io),
        ),
        opened matches Err(e) ==> e is NotFound || found(opened) == Err::<
            Option<(Kind, u64)>,
            Error,
        >(e),
{
}

/// An upload that was stored is answered by 201 if it is new and by 200 if it was there, and
/// counted with its bytes as one or the other. No other is, and none but one that is too large
/// is answered by 413.
pub proof fn law_stored_uploads_are_counted(stored: Option<Result<bool, Error>>, len: u64)
    ensures
        put_response(stored).status == 201 <==> stored == Some(Ok::<bool, Error>(true)),
        put_response(stored).status == 200 <==> stored == Some(Ok::<bool, Error>(false)),
        put_response(stored).status == 413 <==> (stored matches Some(Err(Error::Io(io)))
            && io.kind == IoErrorKind::FileTooLarge),
        put_response(stored).status == 500 <==> stored is None,
        put_response(stored).status == 400 <==> (stored matches Some(Err(e)) && !(
        e matches Error::Io(io) && io.kind == IoErrorKind::FileTooLarge)),
        put_event(stored, len) == Some((Event::Upload, len)) <==> stored == Some(
            Ok::<bool, Error>(true),
        ),
        put_event(stored, len) == Some((Event::Duplicate, len)) <==> stored == Some(
            Ok::<bool, Error>(false),
        ),
        put_event(stored, len) is None <==> !(stored matches Some(Ok(_))),
{
}

} // verus!
