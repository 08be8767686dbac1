//! Compression of blobs.

use crate::error::{Error, IoError, IoErrorKind};
use vstd::prelude::*;

verus! {

/// The level that blobs are compressed with.
pub const COMPRESSION_LEVEL: i32 = 1;

/// What `zstd::encode_all` makes of some bytes at a level.
pub uninterp spec fn zstd_frame(data: Seq<u8>, level: i32) -> Seq<u8>;

/// What `zstd::decode_all` makes of some frames, if it accepts them.
pub uninterp spec fn zstd_content(frames: Seq<u8>) -> Option<Seq<u8>>;

/// `zstd::encode_all`: compresses bytes at a level into a frame whose content they
/// are. The frame is named at one level only, at which the compressor takes the same
/// path on every machine. An error comes as its message; when one comes is not stated, as
/// it rests on the memory of the machine.
#[verifier::external_body]
fn zstd_encode(data: &[u8], level: i32) -> (r: Result<Vec<u8>, String>)
    requires
        level == COMPRESSION_LEVEL,
    ensures
        r matches Ok(frame) ==> {
            &&& frame@ == zstd_frame(data@, level)
            &&& zstd_content(frame@) == Some(data@)
        },
{
    zstd::encode_all(data, level).map_err(|e| e.to_string())
}

/// `zstd::decode_all`: the content of some frames. An error comes as its message.
/// Bytes that are no frames give one; that frames give none is not stated, as it
/// rests on the memory of the machine.
#[verifier::external_body]
fn zstd_decode(frames: &[u8]) -> (r: Result<Vec<u8>, String>)
    ensures
        r matches Ok(data) ==> zstd_content(frames@) == Some(data@),
{
    zstd::decode_all(frames).map_err(|e| e.to_string())
}

/// What a call of the compression library comes to: an error is a failure of the
/// file system that is none of the special ones.
pub open spec fn outcome(called: Result<Vec<u8>, String>) -> Result<Vec<u8>, Error> {
    match called {
        Ok(bytes) => Ok(bytes),
        Err(message) => Err(Error::Io(IoError { kind: IoErrorKind::Other, message })),
    }
}

/// Takes the outcome of a call of the compression library.
pub fn take_outcome(called: Result<Vec<u8>, String>) -> (r: Result<Vec<u8>, Error>)
    ensures
        r == outcome(called),
{
    match called {
        Ok(bytes) => Ok(bytes),
        Err(message) => Err(Error::Io(IoError { kind: IoErrorKind::Other, message })),
    }
}

/// Whether a result is one that the compression library gave for some bytes.
pub closed spec fn is_encoding(data: &[u8], called: Result<Vec<u8>, String>) -> bool {
    call_ensures(zstd_encode, (data, COMPRESSION_LEVEL), called)
}

/// Whether a result is one that the compression library gave for some frames.
pub closed spec fn is_decoding(frames: &[u8], called: Result<Vec<u8>, String>) -> bool {
    call_ensures(zstd_decode, (frames,), called)
}

/// Compresses a blob: the bytes of a file, or a tar archive of a directory. It fails only if
/// the compression library does, and with what that says, however long the blob is.
pub fn compress(data: &[u8]) -> (r: Result<Vec<u8>, Error>)
    ensures
        r matches Ok(frame) ==> {
            &&& frame@ == zstd_frame(data@, COMPRESSION_LEVEL)
            &&& zstd_content(frame@) == Some(data@)
        },
        r matches Err(e) ==> (e matches Error::Io(io) && io.kind == IoErrorKind::Other),
        exists|called: Result<Vec<u8>, String>| #[trigger]
            is_encoding(data, called) && match called {
                Ok(frame) => r == Ok::<Vec<u8>, Error>(frame),
                Err(message) => r matches Err(Error::Io(io)) && io.message == message,
            },
{
    let encode = zstd_encode;
    let called = encode(data, COMPRESSION_LEVEL);
    proof {
        lemma_calls(data, called, data, called);
    }
    take_outcome(called)
}

/// Decompresses a blob. It fails only if the compression library does, and with what that
/// says, however long the blob is.
pub fn decompress(frames: &[u8]) -> (r: Result<Vec<u8>, Error>)
    ensures
        r matches Ok(data) ==> zstd_content(frames@) == Some(data@),
        r matches Err(e) ==> (e matches Error::Io(io) && io.kind == IoErrorKind::Other),
        exists|called: Result<Vec<u8>, String>| #[trigger]
            is_decoding(frames, called) && match called {
                Ok(data) => r == Ok::<Vec<u8>, Error>(data),
                Err(message) => r matches Err(Error::Io(io)) && io.message == message,
            },
{
    let decode = zstd_decode;
    let called = decode(frames);
    proof {
        lemma_calls(frames, called, frames, called);
    }
    take_outcome(called)
}

/// A result of the compression library is what a call of it gave, for all inputs alike.
proof fn lemma_calls(
    data: &[u8],
    encoded: Result<Vec<u8>, String>,
    frames: &[u8],
    decoded: Result<Vec<u8>, String>,
)
    ensures
        is_encoding(data, encoded) <==> call_ensures(
            zstd_encode,
            (data, COMPRESSION_LEVEL),
            encoded,
        ),
        is_decoding(frames, decoded) <==> call_ensures(zstd_decode, (frames,), decoded),
{
}

/// Compression is lossless: what comes out of a compressed blob is what went into it.
pub proof fn law_compression_is_lossless(data: Seq<u8>, frame: Seq<u8>, out: Seq<u8>)
    requires
        zstd_content(frame) == Some(data),
        zstd_content(frame) == Some(out),
    ensures
        out == data,
{
}

/// What the compression library gives is handed on as it is: bytes unchanged, and an error
/// as a failure with the message.
pub proof fn law_outcome_is_handed_on(called: Result<Vec<u8>, String>)
    ensures
        outcome(called) is Ok <==> called is Ok,
        called matches Ok(bytes) ==> outcome(called) == Ok::<Vec<u8>, Error>(bytes),
        called matches Err(message) ==> (outcome(called) matches Err(Error::Io(io)) && io.kind
            == IoErrorKind::Other && io.message == message),
{
}

/// What the library gives for bytes and then for the frame that it made of them is the bytes:
/// a blob that was compressed decompresses, if at all, to what it was made of.
pub proof fn law_blob_is_restored(
    data: &[u8],
    frame: Vec<u8>,
    frames: &[u8],
    out: Vec<u8>,
)
    requires
        is_encoding(data, Ok(frame)),
        frames@ == frame@,
        is_decoding(frames, Ok(out)),
    ensures
        out@ == data@,
{
}

} // verus!
