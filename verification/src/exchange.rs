//! What a blob goes through between two machines.

use crate::address;
use crate::address::Address;
use crate::blobs;
use crate::compression;
use crate::error::{Error, IoError, IoErrorKind};
use crate::http;
use crate::lager;
use crate::lager::Kind;
use crate::model;
use crate::model::World;
use crate::operations::{Asked, OpenRaw, Reply, Retrieve, Step, StoreRaw, StoreRawStage};
use crate::remote;
use crate::remote::{FetchInto, Heard, RemoteError, RemoteStep, UploadFrom};
use vstd::prelude::*;

verus! {

/// The opening of the blob of an address.
pub open spec fn opening(address: Address) -> OpenRaw {
    OpenRaw { address, kind: Kind::File, opened: false }
}

/// The storing of a blob.
pub open spec fn storing(address: Address, kind: Kind, pid: u32, seq: u64) -> StoreRaw {
    StoreRaw { address, kind, pid, seq, stage: StoreRawStage::MakeDirs }
}

/// What an upload leaves behind on a server: the blob that the client opened, stored as
/// the kind that its header names.
pub open spec fn uploaded(address: Address, pid: u32, seq: u64, client: World, server: World) -> (
    World,
    Result<bool, Error>,
) {
    let (opened, r) = model::run(opening(address), client);
    let kind = r->Ok_0;
    let blob = opened.opened->0.content;
    let named = Kind::named(kind.name())->0;
    model::run(storing(address, named, pid, seq), World { incoming: blob, ..server })
}

/// What a download leaves behind on a client: the blob that the server opened, stored as
/// the kind that its header names.
pub open spec fn downloaded(address: Address, pid: u32, seq: u64, server: World, client: World) -> (
    World,
    Result<bool, Error>,
) {
    uploaded(address, pid, seq, server, client)
}

/// Whether a world holds one entry at an address.
pub open spec fn holds(w: World, address: Address, kind: Kind) -> bool {
    w.has(address@, kind) && !w.has(address@, kind.other_kind())
}

/// A blob that is moved from one store to another arrives byte for byte, as the kind that
/// it is, in place of whatever stood there.
pub proof fn law_blob_is_moved_whole(
    address: Address,
    kind: Kind,
    pid: u32,
    seq: u64,
    from: World,
    to: World,
)
    requires
        holds(from, address, kind),
        !to.files.contains_key(lager::temp_components(address@, kind, pid, seq)),
    ensures
        ({
            let (v, r) = uploaded(address, pid, seq, from, to);
            &&& r == Ok::<bool, Error>(!to.has(address@, kind))
            &&& holds(v, address, kind)
            &&& v.entry(address@, kind).content == from.entry(address@, kind).content
        }),
{
    broadcast use crate::address::lemma_address_length;

    lager::law_kind_round_trip(kind);
    model::law_open_raw(address, from);
    let (opened, _) = model::run(opening(address), from);
    let blob = opened.opened->0.content;
    let w = World { incoming: blob, ..to };
    model::law_store_raw(address, kind, pid, seq, w);
    let path = lager::entry_components(address@, kind);
    let other = lager::entry_components(address@, kind.other_kind());
    if path == other {
        model::law_entry_paths_are_distinct(address@, kind, address@, kind.other_kind());
    }
}

/// What one machine stored, another retrieves: a blob that one client uploads and another
/// downloads is extracted there as the same kind, from the same bytes.
pub proof fn law_stored_here_retrieved_there(
    address: Address,
    kind: Kind,
    pid: u32,
    seq: u64,
    pid2: u32,
    seq2: u64,
    here: World,
    server: World,
    there: World,
)
    requires
        holds(here, address, kind),
        !server.files.contains_key(lager::temp_components(address@, kind, pid, seq)),
        !there.files.contains_key(lager::temp_components(address@, kind, pid2, seq2)),
    ensures
        ({
            let stored = uploaded(address, pid, seq, here, server).0;
            let fetched = downloaded(address, pid2, seq2, stored, there).0;
            let (v, r) = model::run(Retrieve::Opening(opening(address)), fetched);
            &&& r == Ok::<(), Error>(())
            &&& v.extracted == Some((kind, here.entry(address@, kind).content))
        }),
{
    law_blob_is_moved_whole(address, kind, pid, seq, here, server);
    let stored = uploaded(address, pid, seq, here, server).0;
    law_blob_is_moved_whole(address, kind, pid2, seq2, stored, there);
    let fetched = downloaded(address, pid2, seq2, stored, there).0;
    model::law_retrieve(address, fetched);
}

/// The data that one machine stored is what another retrieves: where the compressed form of
/// what one client stored holds some data, so do the bytes that another client extracts once
/// the blob was uploaded and downloaded.
pub proof fn law_data_stored_here_is_restored_there(
    address: Address,
    kind: Kind,
    pid: u32,
    seq: u64,
    pid2: u32,
    seq2: u64,
    here: World,
    server: World,
    there: World,
    data: Seq<u8>,
)
    requires
        holds(here, address, kind),
        compression::zstd_content(here.entry(address@, kind).content) == Some(data),
        !server.files.contains_key(lager::temp_components(address@, kind, pid, seq)),
        !there.files.contains_key(lager::temp_components(address@, kind, pid2, seq2)),
    ensures
        ({
            let stored = uploaded(address, pid, seq, here, server).0;
            let fetched = downloaded(address, pid2, seq2, stored, there).0;
            let (v, r) = model::run(Retrieve::Opening(opening(address)), fetched);
            &&& r == Ok::<(), Error>(())
            &&& v.extracted matches Some((k, bytes)) && {
                &&& k == kind
                &&& compression::zstd_content(bytes) == Some(data)
            }
        }),
{
    law_stored_here_retrieved_there(
        address,
        kind,
        pid,
        seq,
        pid2,
        seq2,
        here,
        server,
        there,
    );
}

/// Client and server understand each other: a blob that the server sends is stored as the
/// kind that it is, and that there is no blob is a miss.
pub proof fn law_answers_are_understood(op: FetchInto, kind: Kind, len: u64, value: String)
    requires
        blobs::blob_response(kind, len, http::BodyView::Blob).headers[0] == (
            http::KIND_HEADER@,
            value@,
        ),
    ensures
        op.after(
            Heard::Answer {
                status: blobs::blob_response(kind, len, http::BodyView::Blob).status,
                kind: Some(value),
            },
        ) == RemoteStep::<FetchInto, bool>::Perform(FetchInto { kind: Some(kind), ..op }),
        op.after(Heard::Answer { status: http::bare(404).status, kind: None }) == RemoteStep::<
            FetchInto,
            bool,
        >::Finished(Ok(false)),
{
    lager::law_kind_round_trip(kind);
}

/// An upload that the server stored has arrived, and one that it refused for its token is
/// known to be unauthorized.
pub proof fn law_uploads_are_understood(op: UploadFrom, new: bool)
    ensures
        op.after(
            Heard::Answer { status: blobs::put_response(Some(Ok(new))).status, kind: None },
        ) == RemoteStep::<UploadFrom, ()>::Finished(Ok(())),
        op.after(Heard::Answer { status: 401, kind: None }) == RemoteStep::<
            UploadFrom,
            (),
        >::Finished(Err(RemoteError::Unauthorized)),
{
}

/// A client with the token of a server may upload, and one with another token or none may
/// not.
pub proof fn law_token_admits(
    client: remote::Remote,
    kind: Kind,
    len: u64,
    authorization: Option<&str>,
    token: String,
)
    requires
        authorization is Some <==> client.token() is Some,
        authorization matches Some(value) ==> client.upload_headers(kind, len)[3] == (
            "authorization"@,
            value@,
        ),
    ensures
        blobs::is_authorized(Some(token), authorization) <==> (client.token() matches Some(own)
            && own@ == token@),
{
    if let Some(own) = client.token() {
        let scheme = "Bearer "@;
        assert(client.upload_headers(kind, len)[3] == ("authorization"@, scheme + own@));
        if scheme + own@ == scheme + token@ {
            assert(own@ =~= (scheme + own@).skip(scheme.len() as int));
            assert(token@ =~= (scheme + token@).skip(scheme.len() as int));
        }
    }
}

/// The path segment that a client asks for reads back as its address.
pub proof fn law_segment_is_the_address(address: Address)
    ensures
        ({
            let bytes = vstd::utf8::encode_utf8(address.hex());
            &&& address::is_hex(bytes)
            &&& bytes.len() == 128
            &&& address::hex_decoding(bytes) == address@
        }),
{
    broadcast use crate::address::lemma_address_length;

    address::law_hex_round_trip(address@);
}

/// An upload that is too large is answered so, and what came of it so far is removed: the
/// write fails, the temporary file goes, whether or not that works, and the response is 413.
pub proof fn law_large_upload_is_refused(op: StoreRaw, cause: IoError, removed: Reply)
    requires
        op.asks() is WriteTemp,
        cause.kind == IoErrorKind::FileTooLarge,
    ensures
        op.after(Reply::Failed(cause)) matches Step::Perform(n) && {
            &&& n.asks() == (Asked::RemoveFile { path: op.temp() })
            &&& n.after(removed) matches Step::Finished(stored) && {
                &&& stored == Err::<bool, Error>(Error::Io(cause))
                &&& blobs::put_response(Some(stored)) == http::saying(
                    413,
                    "blob exceeds --max-blob-size\n"@,
                )
                &&& blobs::put_event(Some(stored), 0) is None
            }
        },
{
}

/// The server accepts an upload as the kind that the client sends it as: the header that names
/// the kind in the request reads back as that kind.
pub proof fn law_upload_is_accepted_as_its_kind(
    client: remote::Remote,
    kind: Kind,
    len: u64,
    name: Seq<char>,
    value: &str,
)
    requires
        client.upload_headers(kind, len)[0] == (name, value@),
    ensures
        name == http::KIND_HEADER@,
        remote::named_kind(Some(value)) == Some(kind),
{
    remote::law_header_names_the_kind(value, kind);
}

/// The client stores a blob as the kind that the server sends it as.
pub proof fn law_download_is_stored_as_its_kind(
    op: FetchInto,
    kind: Kind,
    len: u64,
    value: String,
)
    requires
        blobs::blob_header_pairs(kind, len)[0] == (http::KIND_HEADER@, value@),
    ensures
        op.after(Heard::Answer { status: 200, kind: Some(value) }) == RemoteStep::<
            FetchInto,
            bool,
        >::Perform(FetchInto { kind: Some(kind), ..op }),
{
    remote::law_answered_header_names_the_kind(value, kind);
}

} // verus!
