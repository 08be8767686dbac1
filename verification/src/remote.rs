//! Client for halide-cache-server. Every failure is reported as an error to the caller,
//! who is expected to log it and continue without the remote: a cache server outage must
//! never fail a build.

use crate::address::Address;
use crate::error::{Error, IoError};
use crate::http;
use crate::http::{
    put_header, BlobRequest, BlobRequestView, Header, Method, CLIENT_HEADER, KIND_HEADER,
};
use crate::lager::Kind;
use crate::text;
use crate::text::{from_chars, to_chars, write_decimal};
use vstd::pervasive::unreached;
use vstd::prelude::*;

verus! {

/// How long to wait for a connection, in seconds.
pub const CONNECT_TIMEOUT_SECONDS: u64 = 3;

/// How long a transfer may take, in seconds.
pub const TRANSFER_TIMEOUT_SECONDS: u64 = 60;

/// A server, as a client knows it.
#[derive(Debug)]
pub struct Remote {
    base_url: String,
    token: Option<String>,
    hostname: String,
}

/// Why a server could not be made use of.
#[derive(Debug)]
pub enum RemoteError {
    /// The server could not be talked to.
    Http(String),
    Status(u16),
    Unauthorized,
    BadKind,
    Lager(Error),
}

impl RemoteError {
    /// The text that `message` gives.
    pub open spec fn text(self) -> Seq<char> {
        match self {
            RemoteError::Http(e) => e@,
            RemoteError::Status(s) => "unexpected status "@ + text::decimal(s as nat),
            RemoteError::Unauthorized => "uploads rejected: bearer token missing or wrong"@,
            RemoteError::BadKind => "missing or invalid x-lager-kind header"@,
            RemoteError::Lager(e) => e.text(),
        }
    }

    /// The error for people to read.
    pub fn message(&self) -> (s: String)
        ensures
            s@ == self.text(),
    {
        match self {
            RemoteError::Http(e) => e.clone(),
            RemoteError::Status(status) => {
                let mut s = "unexpected status ".to_owned();
                s.append(write_decimal(*status as u64).as_str());
                s
            },
            RemoteError::Unauthorized => {
                "uploads rejected: bearer token missing or wrong".to_owned()
            },
            RemoteError::BadKind => "missing or invalid x-lager-kind header".to_owned(),
            RemoteError::Lager(e) => e.message(),
        }
    }
}

/// What a download or an upload asks for.
#[derive(Debug)]
pub enum Deed {
    /// Send a request to the server.
    Send(BlobRequest),
    /// Store the body of the answer as a blob of this kind.
    StoreBody(Kind),
    /// Open the blob that is to be sent.
    Open,
    /// Find out the length of the opened blob.
    Measure,
}

/// What came of it.
#[derive(Debug)]
pub enum Heard {
    /// The server answered with a status, and a header that names a kind.
    Answer { status: u16, kind: Option<String> },
    /// The server could not be talked to.
    Silence(String),
    Stored(Result<bool, Error>),
    Opened(Result<Kind, Error>),
    Measured(Result<u64, IoError>),
}

/// How a download or an upload goes on.
#[derive(Debug)]
pub enum RemoteStep<M, T> {
    Perform(M),
    Finished(Result<T, RemoteError>),
}

/// A text without the trailing occurrences of a character.
pub open spec fn trimmed_end(s: Seq<char>, c: char) -> Seq<char>
    decreases s.len(),
{
    if s.len() > 0 && s.last() == c {
        trimmed_end(s.drop_last(), c)
    } else {
        s
    }
}

fn trim_end(s: &str, c: char) -> (r: String)
    ensures
        r@ == trimmed_end(s@, c),
{
    let mut chars = to_chars(s);
    while chars.len() > 0 && chars[chars.len() - 1] == c
        invariant
            trimmed_end(s@, c) == trimmed_end(chars@, c),
        decreases chars@.len(),
    {
        let ghost before = chars@;
        chars.pop();
        assert(chars@ =~= before.drop_last());
    }
    from_chars(chars.as_slice())
}

/// The address of the blob endpoint below a base.
pub open spec fn blob_url(base: Seq<char>, address: Seq<char>) -> Seq<char> {
    base + "/v1/blobs/"@ + address
}

/// The kind that a header names, if there is one and it names one.
pub open spec fn named_kind(header: Option<&str>) -> Option<Kind> {
    match header {
        Some(s) => Kind::named(s@),
        None => None,
    }
}

/// Reads the kind off a header.
pub fn read_kind(header: Option<&str>) -> (k: Option<Kind>)
    ensures
        k == named_kind(header),
{
    match header {
        Some(s) => Kind::parse(s),
        None => None,
    }
}

impl Remote {
    /// The URL without trailing slashes.
    pub closed spec fn base(self) -> Seq<char> {
        self.base_url@
    }

    /// The name of this host.
    pub closed spec fn hostname(self) -> Seq<char> {
        self.hostname@
    }

    /// The token for uploads.
    pub closed spec fn token(self) -> Option<String> {
        self.token
    }

    /// The server at a URL, with the token for uploads and the name of this host.
    pub fn new(base_url: &str, token: Option<String>, hostname: String) -> (remote: Self)
        ensures
            remote.base() == trimmed_end(base_url@, '/'),
            remote.token() == token,
            remote.hostname() == hostname@,
    {
        Remote { base_url: trim_end(base_url, '/'), token, hostname }
    }

    fn url(&self, address: &Address) -> (url: String)
        ensures
            url@ == blob_url(self.base(), address.hex()),
    {
        let mut url = self.base_url.clone();
        url.append("/v1/blobs/");
        url.append(address.to_hex().as_str());
        url
    }

    /// Downloads a blob into a store. The result is `false` when the server does not have
    /// it.
    pub fn fetch_into(&self, address: &Address) -> (op: FetchInto)
        ensures
            op == (FetchInto { address: *address, kind: None }),
    {
        FetchInto { address: *address, kind: None }
    }

    /// Uploads the blob that is stored under an address.
    pub fn upload_from(&self, address: &Address) -> (op: UploadFrom)
        ensures
            op == (UploadFrom { address: *address, kind: None, len: None }),
    {
        UploadFrom { address: *address, kind: None, len: None }
    }

    fn fetch_request(&self, address: &Address) -> (r: BlobRequest)
        ensures
            r@ == self.fetch_wanted(*address),
    {
        let mut headers: Vec<Header> = Vec::new();
        assert(http::pairs(headers@) =~= Seq::empty());
        put_header(&mut headers, CLIENT_HEADER, self.hostname.clone());
        assert(http::pairs(headers@) =~= seq![(CLIENT_HEADER@, self.hostname())]);
        BlobRequest { method: Method::Get, url: self.url(address), headers }
    }

    /// The request that downloads a blob.
    pub open spec fn fetch_wanted(self, address: Address) -> BlobRequestView {
        BlobRequestView {
            method: Method::Get,
            url: blob_url(self.base(), address.hex()),
            headers: seq![(CLIENT_HEADER@, self.hostname())],
        }
    }

    /// The request that uploads a blob of a kind and a length.
    pub open spec fn upload_wanted(self, address: Address, kind: Kind, len: u64) -> BlobRequestView {
        BlobRequestView {
            method: Method::Put,
            url: blob_url(self.base(), address.hex()),
            headers: self.upload_headers(kind, len),
        }
    }

    /// The headers of an upload.
    pub open spec fn upload_headers(self, kind: Kind, len: u64) -> Seq<(Seq<char>, Seq<char>)> {
        let headers = seq![
            (KIND_HEADER@, kind.name()),
            (CLIENT_HEADER@, self.hostname()),
            ("content-length"@, text::decimal(len as nat)),
        ];
        match self.token() {
            Some(token) => headers.push(("authorization"@, "Bearer "@ + token@)),
            None => headers,
        }
    }

    fn upload_request(&self, address: &Address, kind: Kind, len: u64) -> (r: BlobRequest)
        ensures
            r@ == self.upload_wanted(*address, kind, len),
    {
        let mut headers: Vec<Header> = Vec::new();
        assert(http::pairs(headers@) =~= Seq::empty());
        put_header(&mut headers, KIND_HEADER, kind.as_str().to_owned());
        put_header(&mut headers, CLIENT_HEADER, self.hostname.clone());
        put_header(&mut headers, "content-length", write_decimal(len));
        assert(http::pairs(headers@) =~= seq![
            (KIND_HEADER@, kind.name()),
            (CLIENT_HEADER@, self.hostname()),
            ("content-length"@, text::decimal(len as nat)),
        ]);
        match &self.token {
            Some(token) => {
                let mut value = "Bearer ".to_owned();
                value.append(token.as_str());
                put_header(&mut headers, "authorization", value);
            },
            None => {},
        }
        BlobRequest { method: Method::Put, url: self.url(address), headers }
    }
}

/// A download. The kind is known once the server sends the blob.
#[derive(Clone, Copy, Debug)]
pub struct FetchInto {
    pub address: Address,
    pub kind: Option<Kind>,
}

/// An upload. The kind is known once the blob is open, and then its length.
#[derive(Clone, Copy, Debug)]
pub struct UploadFrom {
    pub address: Address,
    pub kind: Option<Kind>,
    pub len: Option<u64>,
}

/// What is asked for, with its texts as sequences.
pub enum DeedView {
    Send(BlobRequestView),
    StoreBody(Kind),
    Open,
    Measure,
}

impl View for Deed {
    type V = DeedView;

    open spec fn view(&self) -> DeedView {
        match self {
            Deed::Send(request) => DeedView::Send(request@),
            Deed::StoreBody(kind) => DeedView::StoreBody(*kind),
            Deed::Open => DeedView::Open,
            Deed::Measure => DeedView::Measure,
        }
    }
}

impl DeedView {
    /// Whether this is what was to be heard.
    pub open spec fn admits(self, heard: Heard) -> bool {
        match self {
            DeedView::Send(_) => heard is Answer || heard is Silence,
            DeedView::StoreBody(_) => heard is Stored,
            DeedView::Open => heard is Opened,
            DeedView::Measure => heard is Measured,
        }
    }
}

/// The kind that an optional header names.
pub open spec fn header_kind(header: Option<String>) -> Option<Kind> {
    match header {
        Some(s) => Kind::named(s@),
        None => None,
    }
}

impl FetchInto {
    pub open spec fn asks(self, remote: Remote) -> DeedView {
        match self.kind {
            None => DeedView::Send(remote.fetch_wanted(self.address)),
            Some(kind) => DeedView::StoreBody(kind),
        }
    }

    /// How the download goes on: 404 is a miss, any other status but 200 and a kind that is
    /// not named are errors.
    pub open spec fn after(self, heard: Heard) -> RemoteStep<FetchInto, bool> {
        match heard {
            Heard::Answer { status, kind } => if status == 404 {
                RemoteStep::Finished(Ok(false))
            } else if status != 200 {
                RemoteStep::Finished(Err(RemoteError::Status(status)))
            } else {
                match header_kind(kind) {
                    Some(k) => RemoteStep::Perform(FetchInto { kind: Some(k), ..self }),
                    None => RemoteStep::Finished(Err(RemoteError::BadKind)),
                }
            },
            Heard::Silence(e) => RemoteStep::Finished(Err(RemoteError::Http(e))),
            Heard::Stored(Ok(_)) => RemoteStep::Finished(Ok(true)),
            Heard::Stored(Err(e)) => RemoteStep::Finished(Err(RemoteError::Lager(e))),
            _ => arbitrary(),
        }
    }

    /// What is to be done next.
    pub fn request(&self, remote: &Remote) -> (deed: Deed)
        ensures
            deed@ == self.asks(*remote),
    {
        match self.kind {
            None => Deed::Send(remote.fetch_request(&self.address)),
            Some(kind) => Deed::StoreBody(kind),
        }
    }

    /// Goes on once that is done.
    pub fn resume(self, remote: &Remote, heard: Heard) -> (step: RemoteStep<FetchInto, bool>)
        requires
            self.asks(*remote).admits(heard),
        ensures
            step == self.after(heard),
    {
        match heard {
            Heard::Answer { status, kind } => {
                if status == 404 {
                    return RemoteStep::Finished(Ok(false));
                }
                if status != 200 {
                    return RemoteStep::Finished(Err(RemoteError::Status(status)));
                }
                let named = match &kind {
                    Some(s) => Kind::parse(s.as_str()),
                    None => None,
                };
                match named {
                    Some(k) => RemoteStep::Perform(
                        FetchInto { address: self.address, kind: Some(k) },
                    ),
                    None => RemoteStep::Finished(Err(RemoteError::BadKind)),
                }
            },
            Heard::Silence(e) => RemoteStep::Finished(Err(RemoteError::Http(e))),
            Heard::Stored(Ok(_)) => RemoteStep::Finished(Ok(true)),
            Heard::Stored(Err(e)) => RemoteStep::Finished(Err(RemoteError::Lager(e))),
            _ => unreached(),
        }
    }
}

impl UploadFrom {
    pub open spec fn asks(self, remote: Remote) -> DeedView {
        match (self.kind, self.len) {
            (None, _) => DeedView::Open,
            (Some(_), None) => DeedView::Measure,
            (Some(kind), Some(len)) => DeedView::Send(
                remote.upload_wanted(self.address, kind, len),
            ),
        }
    }

    /// How the upload goes on. It has arrived where the server says that it is new or
    /// that it was there already.
    pub open spec fn after(self, heard: Heard) -> RemoteStep<UploadFrom, ()> {
        match heard {
            Heard::Opened(Ok(kind)) => RemoteStep::Perform(
                UploadFrom { kind: Some(kind), ..self },
            ),
            Heard::Opened(Err(e)) => RemoteStep::Finished(Err(RemoteError::Lager(e))),
            Heard::Measured(Ok(len)) => RemoteStep::Perform(UploadFrom { len: Some(len), ..self }),
            Heard::Measured(Err(e)) => RemoteStep::Finished(
                Err(RemoteError::Lager(Error::Io(e))),
            ),
            Heard::Answer { status, kind } => if status == 200 || status == 201 {
                RemoteStep::Finished(Ok(()))
            } else if status == 401 {
                RemoteStep::Finished(Err(RemoteError::Unauthorized))
            } else {
                RemoteStep::Finished(Err(RemoteError::Status(status)))
            },
            Heard::Silence(e) => RemoteStep::Finished(Err(RemoteError::Http(e))),
            _ => arbitrary(),
        }
    }

    /// What is to be done next.
    pub fn request(&self, remote: &Remote) -> (deed: Deed)
        ensures
            deed@ == self.asks(*remote),
    {
        match (self.kind, self.len) {
            (None, _) => Deed::Open,
            (Some(_), None) => Deed::Measure,
            (Some(kind), Some(len)) => Deed::Send(
                remote.upload_request(&self.address, kind, len),
            ),
        }
    }

    /// Goes on once that is done.
    pub fn resume(self, remote: &Remote, heard: Heard) -> (step: RemoteStep<UploadFrom, ()>)
        requires
            self.asks(*remote).admits(heard),
        ensures
            step == self.after(heard),
    {
        match heard {
            Heard::Opened(Ok(kind)) => RemoteStep::Perform(
                UploadFrom { address: self.address, kind: Some(kind), len: self.len },
            ),
            Heard::Opened(Err(e)) => RemoteStep::Finished(Err(RemoteError::Lager(e))),
            Heard::Measured(Ok(len)) => RemoteStep::Perform(
                UploadFrom { address: self.address, kind: self.kind, len: Some(len) },
            ),
            Heard::Measured(Err(e)) => RemoteStep::Finished(
                Err(RemoteError::Lager(Error::Io(e))),
            ),
            Heard::Answer { status, kind: _ } => {
                if status == 200 || status == 201 {
                    RemoteStep::Finished(Ok(()))
                } else if status == 401 {
                    RemoteStep::Finished(Err(RemoteError::Unauthorized))
                } else {
                    RemoteStep::Finished(Err(RemoteError::Status(status)))
                }
            },
            Heard::Silence(e) => RemoteStep::Finished(Err(RemoteError::Http(e))),
            _ => unreached(),
        }
    }
}

/// A header names the kind whose name it holds, and no other; one that is not there names
/// none.
pub proof fn law_header_names_the_kind(value: &str, kind: Kind)
    ensures
        named_kind(Some(value)) == Some(kind) <==> value@ == kind.name(),
        named_kind(Some(value)) is None <==> value@ != Kind::File.name() && value@
            != Kind::Dir.name(),
        named_kind(None) is None,
{
    crate::lager::law_names_are_those_of_kinds(value@, kind);
    crate::lager::law_kind_round_trip(Kind::File);
    crate::lager::law_kind_round_trip(Kind::Dir);
    crate::lager::law_kind_round_trip(kind);
}

/// A client reads the header of an answer as a server reads that of an upload.
pub proof fn law_answered_header_names_the_kind(value: String, kind: Kind)
    ensures
        header_kind(Some(value)) == Some(kind) <==> value@ == kind.name(),
        header_kind(None) is None,
{
    crate::lager::law_names_are_those_of_kinds(value@, kind);
}

/// What is trimmed off the end of a text is the character, as often as it stands there, and
/// nothing else.
pub proof fn law_trailing_characters_are_trimmed(s: Seq<char>, c: char, n: nat)
    requires
        s.len() == 0 || s.last() != c,
    ensures
        trimmed_end(s + Seq::new(n, |i: int| c), c) == s,
    decreases n,
{
    let tail = Seq::new(n, |i: int| c);
    if n == 0 {
        assert(s + tail =~= s);
    } else {
        let shorter = Seq::new((n - 1) as nat, |i: int| c);
        assert((s + tail).drop_last() =~= s + shorter);
        law_trailing_characters_are_trimmed(s, c, (n - 1) as nat);
    }
}

/// The requests of a client go to the address below the base, and name the client. An upload
/// names the kind and the length of the blob too, and shows the token if there is one.
pub proof fn law_requests_say_what_they_are(
    remote: Remote,
    address: Address,
    kind: Kind,
    len: u64,
)
    ensures
        ({
            let fetch = remote.fetch_wanted(address);
            let upload = remote.upload_wanted(address, kind, len);
            &&& fetch.method == Method::Get && upload.method == Method::Put
            &&& fetch.url == upload.url
            &&& fetch.url == remote.base() + "/v1/blobs/"@ + address.hex()
            &&& fetch.headers == seq![(CLIENT_HEADER@, remote.hostname())]
            &&& upload.headers.len() == if remote.token() is Some {
                4nat
            } else {
                3
            }
            &&& upload.headers[0] == (KIND_HEADER@, kind.name())
            &&& upload.headers[1] == (CLIENT_HEADER@, remote.hostname())
            &&& upload.headers[2].0 == "content-length"@
            &&& text::number(upload.headers[2].1) == len
            &&& remote.token() matches Some(token) ==> upload.headers[3] == (
                "authorization"@,
                "Bearer "@ + token@,
            )
        }),
{
    text::law_decimal_reads_back(len as nat);
}

/// What an answer to a download means: 404 is a miss and no other status is; 200 with a kind
/// goes on to store the body as that kind; anything else is an error, which names the status
/// unless that was 200.
pub proof fn law_answers_to_downloads(op: FetchInto, status: u16, kind: Option<String>, k: Kind)
    ensures
        ({
            let step = op.after(Heard::Answer { status, kind });
            &&& step == RemoteStep::<FetchInto, bool>::Finished(Ok(false)) <==> status == 404
            &&& step != RemoteStep::<FetchInto, bool>::Finished(Ok(true))
            &&& (step matches RemoteStep::Perform(next) && next.kind == Some(k) && next.address
                == op.address) <==> (status == 200 && (kind matches Some(v) && v@ == k.name()))
            &&& status != 200 && status != 404 ==> step == RemoteStep::<
                FetchInto,
                bool,
            >::Finished(Err(RemoteError::Status(status)))
            &&& status == 200 && step is Finished ==> step == RemoteStep::<
                FetchInto,
                bool,
            >::Finished(Err(RemoteError::BadKind))
        }),
{
    if let Some(v) = kind {
        law_answered_header_names_the_kind(v, k);
        law_answered_header_names_the_kind(v, k.other_kind());
    }
}

/// What came of the other steps of a download is handed on: it succeeded exactly if the body
/// was stored.
pub proof fn law_downloads_hand_on(op: FetchInto, e: Error, message: String, new: bool)
    ensures
        op.after(Heard::Silence(message)) == RemoteStep::<FetchInto, bool>::Finished(
            Err(RemoteError::Http(message)),
        ),
        op.after(Heard::Stored(Ok(new))) == RemoteStep::<FetchInto, bool>::Finished(Ok(true)),
        op.after(Heard::Stored(Err(e))) == RemoteStep::<FetchInto, bool>::Finished(
            Err(RemoteError::Lager(e)),
        ),
{
}

/// A download asks the server first, and then stores the body as the kind that was named.
pub proof fn law_downloads_ask_and_store(remote: Remote, address: Address, kind: Kind)
    ensures
        (FetchInto { address, kind: None }).asks(remote) == DeedView::Send(
            remote.fetch_wanted(address),
        ),
        (FetchInto { address, kind: Some(kind) }).asks(remote) == DeedView::StoreBody(kind),
{
}

/// An upload opens the blob, finds out its length, and sends it as the kind that it is. What
/// goes wrong on the way is handed on.
pub proof fn law_uploads_send_what_was_opened(
    remote: Remote,
    address: Address,
    kind: Kind,
    len: u64,
    e: Error,
    io: IoError,
)
    ensures
        ({
            let start = UploadFrom { address, kind: None, len: None };
            let opened = UploadFrom { kind: Some(kind), ..start };
            let measured = UploadFrom { len: Some(len), ..opened };
            &&& start.asks(remote) == DeedView::Open
            &&& start.after(Heard::Opened(Ok(kind))) == RemoteStep::<UploadFrom, ()>::Perform(
                opened,
            )
            &&& start.after(Heard::Opened(Err(e))) == RemoteStep::<UploadFrom, ()>::Finished(
                Err(RemoteError::Lager(e)),
            )
            &&& opened.asks(remote) == DeedView::Measure
            &&& opened.after(Heard::Measured(Ok(len))) == RemoteStep::<UploadFrom, ()>::Perform(
                measured,
            )
            &&& opened.after(Heard::Measured(Err(io))) == RemoteStep::<UploadFrom, ()>::Finished(
                Err(RemoteError::Lager(Error::Io(io))),
            )
            &&& measured.asks(remote) == DeedView::Send(remote.upload_wanted(address, kind, len))
        }),
{
}

/// What an answer to an upload means: it arrived exactly if the server says 200 or 201, it was
/// refused for its token exactly if the server says 401, and any other status is an error that
/// names it.
pub proof fn law_answers_to_uploads(
    op: UploadFrom,
    status: u16,
    kind: Option<String>,
    message: String,
)
    ensures
        ({
            let step = op.after(Heard::Answer { status, kind });
            &&& step matches RemoteStep::Finished(r)
            &&& r is Ok <==> status == 200 || status == 201
            &&& r == Err::<(), RemoteError>(RemoteError::Unauthorized) <==> status == 401
            &&& status != 200 && status != 201 && status != 401 ==> r == Err::<(), RemoteError>(
                RemoteError::Status(status),
            )
        }),
        op.after(Heard::Silence(message)) == RemoteStep::<UploadFrom, ()>::Finished(
            Err(RemoteError::Http(message)),
        ),
{
}

/// The text of an error names what went wrong: the status, or the error that is handed on.
pub proof fn law_remote_errors_name_their_cause(
    status: u16,
    other: u16,
    message: String,
    e: Error,
)
    ensures
        RemoteError::Http(message).text() == message@,
        RemoteError::Lager(e).text() == e.text(),
        RemoteError::Unauthorized.text() != RemoteError::BadKind.text(),
        RemoteError::Status(status).text() == RemoteError::Status(other).text() ==> status
            == other,
{
    reveal_strlit("uploads rejected: bearer token missing or wrong");
    reveal_strlit("missing or invalid x-lager-kind header");
    assert(RemoteError::Unauthorized.text()[0] != RemoteError::BadKind.text()[0]);
    let head = "unexpected status "@;
    let s = text::decimal(status as nat);
    let t = text::decimal(other as nat);
    if head + s == head + t {
        assert(s =~= (head + s).skip(head.len() as int));
        assert(t =~= (head + t).skip(head.len() as int));
        text::law_decimal_is_injective(status as nat, other as nat);
    }
}

/// A server that does not answer holds a build up by no more than a minute for each transfer,
/// and by seconds where it cannot even be reached.
pub proof fn law_waiting_is_bounded()
    ensures
        CONNECT_TIMEOUT_SECONDS == 3,
        TRANSFER_TIMEOUT_SECONDS == 60,
{
}

/// What is asked for is viewed as it is.
pub proof fn law_deeds_are_viewed_as_they_are(deed: Deed)
    ensures
        deed@ is Open <==> deed is Open,
        deed@ is Measure <==> deed is Measure,
        deed matches Deed::Send(request) ==> deed@ == DeedView::Send(request@),
        deed matches Deed::StoreBody(kind) ==> deed@ == DeedView::StoreBody(kind),
{
}

} // verus!
