//! The operations of the store as machines over requests to the file system.
//!
//! A machine asks for one thing at a time. `asks` says what it asks for and `after` how it
//! goes on; `request` and `resume` do so. Times are nanoseconds since the epoch.

use crate::address::Address;
use crate::error::{Error, IoError, IoErrorKind};
use crate::lager;
use crate::lager::{entry_path, parent_path, temp_path, Kind};
use crate::text;
use vstd::pervasive::unreached;
use vstd::prelude::*;

verus! {

/// What stands at the path of something to be stored.
#[derive(Clone, Copy, Debug, PartialEq, Eq, Structural)]
pub enum SourceKind {
    File,
    Dir,
    Other,
}

/// What an operation asks of the file system. Paths are components below the
/// root of the store.
#[derive(Debug)]
pub enum Request {
    /// Create a directory and its parents.
    CreateDirs { path: Vec<String> },
    /// Look at what stands at the source path.
    ProbeSource,
    /// Compress the source into a new file.
    StoreSource { path: Vec<String>, kind: Kind },
    /// Open a file for reading.
    Open { path: Vec<String> },
    /// Set the modification time of the opened file to now.
    Touch,
    /// Decompress the opened file to the destination path.
    Extract { kind: Kind },
    /// See whether there is a file.
    Exists { path: Vec<String> },
    /// Write the blob to a new file.
    WriteTemp { path: Vec<String> },
    /// Move a file, over one that may be there.
    Rename { from: Vec<String>, to: Vec<String> },
    /// Delete a file.
    RemoveFile { path: Vec<String> },
    /// Look up the modification time of a file.
    Modified { path: Vec<String> },
}

/// A request with its paths as texts.
pub enum Asked {
    CreateDirs { path: Seq<Seq<char>> },
    ProbeSource,
    StoreSource { path: Seq<Seq<char>>, kind: Kind },
    Open { path: Seq<Seq<char>> },
    Touch,
    Extract { kind: Kind },
    Exists { path: Seq<Seq<char>> },
    WriteTemp { path: Seq<Seq<char>> },
    Rename { from: Seq<Seq<char>>, to: Seq<Seq<char>> },
    RemoveFile { path: Seq<Seq<char>> },
    Modified { path: Seq<Seq<char>> },
}

impl View for Request {
    type V = Asked;

    open spec fn view(&self) -> Asked {
        match self {
            Request::CreateDirs { path } => Asked::CreateDirs { path: text::texts(path@) },
            Request::ProbeSource => Asked::ProbeSource,
            Request::StoreSource { path, kind } => Asked::StoreSource {
                path: text::texts(path@),
                kind: *kind,
            },
            Request::Open { path } => Asked::Open { path: text::texts(path@) },
            Request::Touch => Asked::Touch,
            Request::Extract { kind } => Asked::Extract { kind: *kind },
            Request::Exists { path } => Asked::Exists { path: text::texts(path@) },
            Request::WriteTemp { path } => Asked::WriteTemp { path: text::texts(path@) },
            Request::Rename { from, to } => Asked::Rename {
                from: text::texts(from@),
                to: text::texts(to@),
            },
            Request::RemoveFile { path } => Asked::RemoveFile { path: text::texts(path@) },
            Request::Modified { path } => Asked::Modified { path: text::texts(path@) },
        }
    }
}

/// What the file system answers. Times are nanoseconds since the Unix epoch.
#[derive(Debug)]
pub enum Reply {
    Done,
    Failed(IoError),
    Source(SourceKind),
    Exists(bool),
    ModifiedAt(i128),
}

impl Asked {
    /// Whether a reply is one to this request.
    pub open spec fn admits(self, reply: Reply) -> bool {
        match self {
            Asked::ProbeSource => reply is Source,
            Asked::Exists { .. } => reply is Exists,
            Asked::Modified { .. } => reply is ModifiedAt || reply is Failed,
            _ => reply is Done || reply is Failed,
        }
    }
}

/// Whether a reply says that there is no such file.
pub open spec fn is_missing(reply: Reply) -> bool {
    reply matches Reply::Failed(e) && e.kind == IoErrorKind::NotFound
}

/// What follows a reply: a machine with its next request, or the result.
pub enum Step<M, T> {
    Perform(M),
    Finished(Result<T, Error>),
}

/// Opens the blob of an address, whichever its kind, and marks it as used. A file that is
/// gone before it is open is a miss. One that goes afterwards is a hit even if it can no
/// longer be marked: an open file stays readable, so an eviction does not disturb a download.
#[derive(Clone, Copy, Debug)]
pub struct OpenRaw {
    pub address: Address,
    /// The kind that is tried.
    pub kind: Kind,
    pub opened: bool,
}

impl OpenRaw {
    pub open spec fn asks(self) -> Asked {
        if self.opened {
            Asked::Touch
        } else {
            Asked::Open { path: lager::entry_components(self.address@, self.kind) }
        }
    }

    pub open spec fn after(self, reply: Reply) -> Step<OpenRaw, Kind> {
        if self.opened {
            match reply {
                Reply::Failed(e) if e.kind != IoErrorKind::NotFound => Step::Finished(
                    Err(Error::Io(e)),
                ),
                _ => Step::Finished(Ok(self.kind)),
            }
        } else {
            match reply {
                Reply::Done => Step::Perform(OpenRaw { opened: true, ..self }),
                Reply::Failed(e) => if e.kind != IoErrorKind::NotFound {
                    Step::Finished(Err(Error::Io(e)))
                } else if self.kind == Kind::File {
                    Step::Perform(OpenRaw { kind: Kind::Dir, ..self })
                } else {
                    Step::Finished(Err(Error::NotFound { address: self.address }))
                },
                _ => arbitrary(),
            }
        }
    }

    pub fn request(&self) -> (r: Request)
        ensures
            r@ == self.asks(),
    {
        if self.opened {
            Request::Touch
        } else {
            Request::Open { path: entry_path(&self.address, self.kind) }
        }
    }

    pub fn resume(self, reply: Reply) -> (step: Step<OpenRaw, Kind>)
        requires
            self.asks().admits(reply),
        ensures
            step == self.after(reply),
    {
        match reply {
            Reply::Done => if self.opened {
                Step::Finished(Ok(self.kind))
            } else {
                Step::Perform(OpenRaw { opened: true, ..self })
            },
            Reply::Failed(e) => if e.kind != IoErrorKind::NotFound {
                Step::Finished(Err(Error::Io(e)))
            } else if self.opened {
                // The file vanished between the two steps; the handle still reads.
                Step::Finished(Ok(self.kind))
            } else if self.kind == Kind::File {
                Step::Perform(OpenRaw { kind: Kind::Dir, ..self })
            } else {
                Step::Finished(Err(Error::NotFound { address: self.address }))
            },
            _ => unreached(),
        }
    }
}

/// Extracts the blob of an address to a destination.
#[derive(Clone, Copy, Debug)]
pub enum Retrieve {
    Opening(OpenRaw),
    Extracting { kind: Kind },
}

impl Retrieve {
    pub open spec fn asks(self) -> Asked {
        match self {
            Retrieve::Opening(open) => open.asks(),
            Retrieve::Extracting { kind } => Asked::Extract { kind },
        }
    }

    pub open spec fn after(self, reply: Reply) -> Step<Retrieve, ()> {
        match self {
            Retrieve::Opening(open) => match open.after(reply) {
                Step::Perform(open) => Step::Perform(Retrieve::Opening(open)),
                Step::Finished(Ok(kind)) => Step::Perform(Retrieve::Extracting { kind }),
                Step::Finished(Err(e)) => Step::Finished(Err(e)),
            },
            Retrieve::Extracting { kind } => match reply {
                Reply::Failed(e) => Step::Finished(Err(Error::Io(e))),
                _ => Step::Finished(Ok(())),
            },
        }
    }

    pub fn request(&self) -> (r: Request)
        ensures
            r@ == self.asks(),
    {
        match self {
            Retrieve::Opening(open) => open.request(),
            Retrieve::Extracting { kind } => Request::Extract { kind: *kind },
        }
    }

    pub fn resume(self, reply: Reply) -> (step: Step<Retrieve, ()>)
        requires
            self.asks().admits(reply),
        ensures
            step == self.after(reply),
    {
        match self {
            Retrieve::Opening(open) => match open.resume(reply) {
                Step::Perform(open) => Step::Perform(Retrieve::Opening(open)),
                Step::Finished(Ok(kind)) => Step::Perform(Retrieve::Extracting { kind }),
                Step::Finished(Err(e)) => Step::Finished(Err(e)),
            },
            Retrieve::Extracting { kind: _ } => match reply {
                Reply::Failed(e) => Step::Finished(Err(Error::Io(e))),
                _ => Step::Finished(Ok(())),
            },
        }
    }
}

/// An address holds exactly one entry: after one of a kind was stored, one of the
/// other kind goes. What a reply to its removal means; that it was not there is
/// no failure.
pub open spec fn other_kind_removed(reply: Reply) -> Option<Error> {
    match reply {
        Reply::Failed(e) if e.kind != IoErrorKind::NotFound => Some(Error::Io(e)),
        _ => None,
    }
}

fn remove_other_kind(reply: Reply) -> (r: Option<Error>)
    ensures
        r == other_kind_removed(reply),
{
    match reply {
        Reply::Failed(e) => if e.kind != IoErrorKind::NotFound {
            Some(Error::Io(e))
        } else {
            None
        },
        _ => None,
    }
}

/// How far a `StoreAt` is.
#[derive(Debug)]
pub enum StoreAtStage {
    MakeDirs,
    Probe,
    Write(Kind),
    Rename(Kind),
    /// The write failed: the temporary file goes, whether or not that works.
    RemoveTemp { kind: Kind, cause: IoError },
    RemoveOther(Kind),
}

/// Stores what stands at a source path under an address: to a temporary file first, which
/// is then renamed into place, so that a write that fails or is stopped leaves what stood
/// there.
#[derive(Debug)]
pub struct StoreAt {
    pub address: Address,
    pub source: String,
    /// The process, and the number of the write in it.
    pub pid: u32,
    pub seq: u64,
    pub stage: StoreAtStage,
}

impl StoreAt {
    /// The temporary file for an entry of a kind.
    pub open spec fn temp(self, kind: Kind) -> Seq<Seq<char>> {
        lager::temp_components(self.address@, kind, self.pid, self.seq)
    }

    pub open spec fn asks(self) -> Asked {
        match self.stage {
            StoreAtStage::MakeDirs => Asked::CreateDirs {
                path: lager::shard_components(self.address.hex(), 2).take(2),
            },
            StoreAtStage::Probe => Asked::ProbeSource,
            StoreAtStage::Write(kind) => Asked::StoreSource { path: self.temp(kind), kind },
            StoreAtStage::Rename(kind) => Asked::Rename {
                from: self.temp(kind),
                to: lager::entry_components(self.address@, kind),
            },
            StoreAtStage::RemoveTemp { kind, .. } => Asked::RemoveFile { path: self.temp(kind) },
            StoreAtStage::RemoveOther(kind) => Asked::RemoveFile {
                path: lager::entry_components(self.address@, kind.other_kind()),
            },
        }
    }

    pub open spec fn at(self, stage: StoreAtStage) -> Step<StoreAt, ()> {
        Step::Perform(StoreAt { stage, ..self })
    }

    pub open spec fn after(self, reply: Reply) -> Step<StoreAt, ()> {
        match self.stage {
            StoreAtStage::MakeDirs => match reply {
                Reply::Failed(e) => Step::Finished(Err(Error::Io(e))),
                _ => self.at(StoreAtStage::Probe),
            },
            StoreAtStage::Probe => match reply {
                Reply::Source(SourceKind::File) => self.at(StoreAtStage::Write(Kind::File)),
                Reply::Source(SourceKind::Dir) => self.at(StoreAtStage::Write(Kind::Dir)),
                _ => Step::Finished(Err(Error::NoSuchFile { path: self.source })),
            },
            StoreAtStage::Write(kind) => match reply {
                Reply::Failed(cause) => self.at(StoreAtStage::RemoveTemp { kind, cause }),
                _ => self.at(StoreAtStage::Rename(kind)),
            },
            StoreAtStage::Rename(kind) => match reply {
                Reply::Failed(cause) => self.at(StoreAtStage::RemoveTemp { kind, cause }),
                _ => self.at(StoreAtStage::RemoveOther(kind)),
            },
            StoreAtStage::RemoveTemp { cause, .. } => Step::Finished(Err(Error::Io(cause))),
            StoreAtStage::RemoveOther(kind) => match other_kind_removed(reply) {
                Some(e) => Step::Finished(Err(e)),
                None => Step::Finished(Ok(())),
            },
        }
    }

    pub fn request(&self) -> (r: Request)
        ensures
            r@ == self.asks(),
    {
        match &self.stage {
            StoreAtStage::MakeDirs => Request::CreateDirs { path: parent_path(&self.address) },
            StoreAtStage::Probe => Request::ProbeSource,
            StoreAtStage::Write(kind) => Request::StoreSource {
                path: temp_path(&self.address, *kind, self.pid, self.seq),
                kind: *kind,
            },
            StoreAtStage::Rename(kind) => Request::Rename {
                from: temp_path(&self.address, *kind, self.pid, self.seq),
                to: entry_path(&self.address, *kind),
            },
            StoreAtStage::RemoveTemp { kind, cause: _ } => Request::RemoveFile {
                path: temp_path(&self.address, *kind, self.pid, self.seq),
            },
            StoreAtStage::RemoveOther(kind) => Request::RemoveFile {
                path: entry_path(&self.address, kind.other()),
            },
        }
    }

    fn advance(self, stage: StoreAtStage) -> (step: Step<StoreAt, ()>)
        ensures
            step == self.at(stage),
    {
        Step::Perform(
            StoreAt {
                address: self.address,
                source: self.source,
                pid: self.pid,
                seq: self.seq,
                stage,
            },
        )
    }

    pub fn resume(self, reply: Reply) -> (step: Step<StoreAt, ()>)
        requires
            self.asks().admits(reply),
        ensures
            step == self.after(reply),
    {
        let StoreAt { address, source, pid, seq, stage } = self;
        let rest = StoreAt { address, source, pid, seq, stage: StoreAtStage::MakeDirs };
        match stage {
            StoreAtStage::MakeDirs => match reply {
                Reply::Failed(e) => Step::Finished(Err(Error::Io(e))),
                _ => rest.advance(StoreAtStage::Probe),
            },
            StoreAtStage::Probe => match reply {
                Reply::Source(SourceKind::File) => rest.advance(StoreAtStage::Write(Kind::File)),
                Reply::Source(SourceKind::Dir) => rest.advance(StoreAtStage::Write(Kind::Dir)),
                _ => Step::Finished(Err(Error::NoSuchFile { path: rest.source })),
            },
            StoreAtStage::Write(kind) => match reply {
                Reply::Failed(cause) => rest.advance(StoreAtStage::RemoveTemp { kind, cause }),
                _ => rest.advance(StoreAtStage::Rename(kind)),
            },
            StoreAtStage::Rename(kind) => match reply {
                Reply::Failed(cause) => rest.advance(StoreAtStage::RemoveTemp { kind, cause }),
                _ => rest.advance(StoreAtStage::RemoveOther(kind)),
            },
            StoreAtStage::RemoveTemp { kind: _, cause } => Step::Finished(Err(Error::Io(cause))),
            StoreAtStage::RemoveOther(_) => match remove_other_kind(reply) {
                Some(e) => Step::Finished(Err(e)),
                None => Step::Finished(Ok(())),
            },
        }
    }
}

/// How far a `StoreRaw` is. Whether the entry was there is known once asked.
#[derive(Debug)]
pub enum StoreRawStage {
    MakeDirs,
    Probe,
    Write { existed: bool },
    Rename { existed: bool },
    /// The write failed: the temporary file goes, whether or not that works, and nothing
    /// else does.
    RemoveTemp { cause: IoError },
    RemoveOther { existed: bool },
}

/// Stores an already compressed blob: to a temporary file first, which is then
/// renamed into place, so that readers never see a part of it.
#[derive(Debug)]
pub struct StoreRaw {
    pub address: Address,
    pub kind: Kind,
    /// The process, and the number of the write in it.
    pub pid: u32,
    pub seq: u64,
    pub stage: StoreRawStage,
}

impl StoreRaw {
    pub open spec fn temp(self) -> Seq<Seq<char>> {
        lager::temp_components(self.address@, self.kind, self.pid, self.seq)
    }

    pub open spec fn dest(self) -> Seq<Seq<char>> {
        lager::entry_components(self.address@, self.kind)
    }

    pub open spec fn asks(self) -> Asked {
        match self.stage {
            StoreRawStage::MakeDirs => Asked::CreateDirs {
                path: lager::shard_components(self.address.hex(), 2).take(2),
            },
            StoreRawStage::Probe => Asked::Exists { path: self.dest() },
            StoreRawStage::Write { .. } => Asked::WriteTemp { path: self.temp() },
            StoreRawStage::Rename { .. } => Asked::Rename { from: self.temp(), to: self.dest() },
            StoreRawStage::RemoveTemp { .. } => Asked::RemoveFile { path: self.temp() },
            StoreRawStage::RemoveOther { .. } => Asked::RemoveFile {
                path: lager::entry_components(self.address@, self.kind.other_kind()),
            },
        }
    }

    pub open spec fn at(self, stage: StoreRawStage) -> Step<StoreRaw, bool> {
        Step::Perform(StoreRaw { stage, ..self })
    }

    /// The result is whether the entry is new.
    pub open spec fn after(self, reply: Reply) -> Step<StoreRaw, bool> {
        match self.stage {
            StoreRawStage::MakeDirs => match reply {
                Reply::Failed(e) => Step::Finished(Err(Error::Io(e))),
                _ => self.at(StoreRawStage::Probe),
            },
            StoreRawStage::Probe => match reply {
                Reply::Exists(existed) => self.at(StoreRawStage::Write { existed }),
                _ => arbitrary(),
            },
            StoreRawStage::Write { existed } => match reply {
                Reply::Failed(cause) => self.at(StoreRawStage::RemoveTemp { cause }),
                _ => self.at(StoreRawStage::Rename { existed }),
            },
            StoreRawStage::Rename { existed } => match reply {
                Reply::Failed(cause) => self.at(StoreRawStage::RemoveTemp { cause }),
                _ => self.at(StoreRawStage::RemoveOther { existed }),
            },
            StoreRawStage::RemoveTemp { cause } => Step::Finished(Err(Error::Io(cause))),
            StoreRawStage::RemoveOther { existed } => match other_kind_removed(reply) {
                Some(e) => Step::Finished(Err(e)),
                None => Step::Finished(Ok(!existed)),
            },
        }
    }

    pub fn request(&self) -> (r: Request)
        ensures
            r@ == self.asks(),
    {
        match &self.stage {
            StoreRawStage::MakeDirs => Request::CreateDirs { path: parent_path(&self.address) },
            StoreRawStage::Probe => Request::Exists { path: entry_path(&self.address, self.kind) },
            StoreRawStage::Write { existed: _ } => Request::WriteTemp {
                path: temp_path(&self.address, self.kind, self.pid, self.seq),
            },
            StoreRawStage::Rename { existed: _ } => Request::Rename {
                from: temp_path(&self.address, self.kind, self.pid, self.seq),
                to: entry_path(&self.address, self.kind),
            },
            StoreRawStage::RemoveTemp { cause: _ } => Request::RemoveFile {
                path: temp_path(&self.address, self.kind, self.pid, self.seq),
            },
            StoreRawStage::RemoveOther { existed: _ } => Request::RemoveFile {
                path: entry_path(&self.address, self.kind.other()),
            },
        }
    }

    fn advance(self, stage: StoreRawStage) -> (step: Step<StoreRaw, bool>)
        ensures
            step == self.at(stage),
    {
        Step::Perform(
            StoreRaw {
                address: self.address,
                kind: self.kind,
                pid: self.pid,
                seq: self.seq,
                stage,
            },
        )
    }

    pub fn resume(self, reply: Reply) -> (step: Step<StoreRaw, bool>)
        requires
            self.asks().admits(reply),
        ensures
            step == self.after(reply),
    {
        let StoreRaw { address, kind, pid, seq, stage } = self;
        let rest = StoreRaw { address, kind, pid, seq, stage: StoreRawStage::MakeDirs };
        match stage {
            StoreRawStage::MakeDirs => match reply {
                Reply::Failed(e) => Step::Finished(Err(Error::Io(e))),
                _ => rest.advance(StoreRawStage::Probe),
            },
            StoreRawStage::Probe => match reply {
                Reply::Exists(existed) => rest.advance(StoreRawStage::Write { existed }),
                _ => unreached(),
            },
            StoreRawStage::Write { existed } => match reply {
                Reply::Failed(cause) => rest.advance(StoreRawStage::RemoveTemp { cause }),
                _ => rest.advance(StoreRawStage::Rename { existed }),
            },
            StoreRawStage::Rename { existed } => match reply {
                Reply::Failed(cause) => rest.advance(StoreRawStage::RemoveTemp { cause }),
                _ => rest.advance(StoreRawStage::RemoveOther { existed }),
            },
            StoreRawStage::RemoveTemp { cause } => Step::Finished(Err(Error::Io(cause))),
            StoreRawStage::RemoveOther { existed } => match remove_other_kind(reply) {
                Some(e) => Step::Finished(Err(e)),
                None => Step::Finished(Ok(!existed)),
            },
        }
    }
}

/// Removes the entry of an address, whatever its kind. That there is none is no
/// error.
#[derive(Clone, Copy, Debug)]
pub struct Remove {
    pub address: Address,
    /// The kind that is tried.
    pub kind: Kind,
}

impl Remove {
    pub open spec fn asks(self) -> Asked {
        Asked::RemoveFile { path: lager::entry_components(self.address@, self.kind) }
    }

    pub open spec fn after(self, reply: Reply) -> Step<Remove, ()> {
        match reply {
            Reply::Failed(e) => if e.kind != IoErrorKind::NotFound {
                Step::Finished(Err(Error::Io(e)))
            } else if self.kind == Kind::File {
                Step::Perform(Remove { kind: Kind::Dir, ..self })
            } else {
                Step::Finished(Ok(()))
            },
            _ => Step::Finished(Ok(())),
        }
    }

    pub fn request(&self) -> (r: Request)
        ensures
            r@ == self.asks(),
    {
        Request::RemoveFile { path: entry_path(&self.address, self.kind) }
    }

    pub fn resume(self, reply: Reply) -> (step: Step<Remove, ()>)
        requires
            self.asks().admits(reply),
        ensures
            step == self.after(reply),
    {
        match reply {
            Reply::Failed(e) => if e.kind != IoErrorKind::NotFound {
                Step::Finished(Err(Error::Io(e)))
            } else if self.kind == Kind::File {
                Step::Perform(Remove { kind: Kind::Dir, ..self })
            } else {
                Step::Finished(Ok(()))
            },
            _ => Step::Finished(Ok(())),
        }
    }
}

/// Removes the entry of an address unless it was used after some time. The result
/// is whether an entry was removed.
#[derive(Clone, Copy, Debug)]
pub struct RemoveIfUnused {
    pub address: Address,
    pub since: i128,
    /// The kind that is tried.
    pub kind: Kind,
    /// Whether the entry was found and unused since.
    pub unused: bool,
}

impl RemoveIfUnused {
    pub open spec fn asks(self) -> Asked {
        let path = lager::entry_components(self.address@, self.kind);
        if self.unused {
            Asked::RemoveFile { path }
        } else {
            Asked::Modified { path }
        }
    }

    /// What follows when there is no entry of the kind that is tried.
    pub open spec fn after_missing(self) -> Step<RemoveIfUnused, bool> {
        if self.kind == Kind::File {
            Step::Perform(RemoveIfUnused { kind: Kind::Dir, unused: false, ..self })
        } else {
            Step::Finished(Ok(false))
        }
    }

    pub open spec fn after(self, reply: Reply) -> Step<RemoveIfUnused, bool> {
        match reply {
            Reply::Failed(e) => if e.kind != IoErrorKind::NotFound {
                Step::Finished(Err(Error::Io(e)))
            } else {
                self.after_missing()
            },
            Reply::ModifiedAt(modified) => if modified > self.since {
                Step::Finished(Ok(false))
            } else {
                Step::Perform(RemoveIfUnused { unused: true, ..self })
            },
            _ => Step::Finished(Ok(true)),
        }
    }

    pub fn request(&self) -> (r: Request)
        ensures
            r@ == self.asks(),
    {
        let path = entry_path(&self.address, self.kind);
        if self.unused {
            Request::RemoveFile { path }
        } else {
            Request::Modified { path }
        }
    }

    pub fn resume(self, reply: Reply) -> (step: Step<RemoveIfUnused, bool>)
        requires
            self.asks().admits(reply),
        ensures
            step == self.after(reply),
    {
        match reply {
            Reply::Failed(e) => if e.kind != IoErrorKind::NotFound {
                Step::Finished(Err(Error::Io(e)))
            } else if self.kind == Kind::File {
                Step::Perform(RemoveIfUnused { kind: Kind::Dir, unused: false, ..self })
            } else {
                Step::Finished(Ok(false))
            },
            Reply::ModifiedAt(modified) => if modified > self.since {
                Step::Finished(Ok(false))
            } else {
                Step::Perform(RemoveIfUnused { unused: true, ..self })
            },
            _ => Step::Finished(Ok(true)),
        }
    }
}

/// A failure of the file system that is not that a file is missing ends what only reads or
/// removes, and is reported as it is.
pub proof fn law_failures_are_reported(
    open: OpenRaw,
    remove: Remove,
    unused: RemoveIfUnused,
    e: IoError,
)
    requires
        e.kind != IoErrorKind::NotFound,
    ensures
        open.after(Reply::Failed(e)) == Step::<OpenRaw, Kind>::Finished(Err(Error::Io(e))),
        Retrieve::Opening(open).after(Reply::Failed(e)) == Step::<Retrieve, ()>::Finished(
            Err(Error::Io(e)),
        ),
        remove.after(Reply::Failed(e)) == Step::<Remove, ()>::Finished(Err(Error::Io(e))),
        unused.after(Reply::Failed(e)) == Step::<RemoveIfUnused, bool>::Finished(
            Err(Error::Io(e)),
        ),
{
}

/// A blob that cannot be extracted fails its retrieval, whatever the reason.
pub proof fn law_failed_extraction_is_reported(kind: Kind, e: IoError)
    ensures
        (Retrieve::Extracting { kind }).asks() == (Asked::Extract { kind }),
        (Retrieve::Extracting { kind }).after(Reply::Failed(e)) == Step::<
            Retrieve,
            (),
        >::Finished(Err(Error::Io(e))),
        (Retrieve::Extracting { kind }).after(Reply::Done) == Step::<Retrieve, ()>::Finished(
            Ok(()),
        ),
{
}

/// A store that fails is reported with what failed: at once if no file was written yet, and
/// once the temporary file was cleared away, whether or not that worked, otherwise. That the
/// entry of the other kind is not there is no failure.
pub proof fn law_failed_stores_are_reported(
    at: StoreAt,
    raw: StoreRaw,
    kind: Kind,
    existed: bool,
    e: IoError,
    cleared: Reply,
)
    ensures
        at.stage is MakeDirs ==> at.after(Reply::Failed(e)) == Step::<StoreAt, ()>::Finished(
            Err(Error::Io(e)),
        ),
        raw.stage is MakeDirs ==> raw.after(Reply::Failed(e)) == Step::<StoreRaw, bool>::Finished(
            Err(Error::Io(e)),
        ),
        at.stage == StoreAtStage::Write(kind) || at.stage == StoreAtStage::Rename(kind)
            ==> (at.after(Reply::Failed(e)) matches Step::Perform(next) && {
            &&& next.asks() == (Asked::RemoveFile { path: at.temp(kind) })
            &&& next.after(cleared) == Step::<StoreAt, ()>::Finished(Err(Error::Io(e)))
        }),
        raw.stage is Write || raw.stage is Rename ==> (raw.after(
            Reply::Failed(e),
        ) matches Step::Perform(next) && {
            &&& next.asks() == (Asked::RemoveFile { path: raw.temp() })
            &&& next.after(cleared) == Step::<StoreRaw, bool>::Finished(Err(Error::Io(e)))
        }),
        at.stage == StoreAtStage::RemoveOther(kind) ==> at.after(Reply::Failed(e)) == if e.kind
            == IoErrorKind::NotFound {
            Step::<StoreAt, ()>::Finished(Ok(()))
        } else {
            Step::<StoreAt, ()>::Finished(Err(Error::Io(e)))
        },
        raw.stage == (StoreRawStage::RemoveOther { existed }) ==> raw.after(Reply::Failed(e))
            == if e.kind == IoErrorKind::NotFound {
            Step::<StoreRaw, bool>::Finished(Ok(!existed))
        } else {
            Step::<StoreRaw, bool>::Finished(Err(Error::Io(e)))
        },
        at.stage is Probe ==> at.after(Reply::Source(SourceKind::Other)) == Step::<
            StoreAt,
            (),
        >::Finished(Err(Error::NoSuchFile { path: at.source })),
{
}

/// The requests of the operations are about the entry of their address: what is looked for,
/// opened, looked up and removed is the entry of the kind that is tried.
pub proof fn law_requests_are_about_the_entry(
    open: OpenRaw,
    remove: Remove,
    unused: RemoveIfUnused,
)
    ensures
        !open.opened ==> open.asks() == (Asked::Open {
            path: lager::entry_components(open.address@, open.kind),
        }),
        open.opened ==> open.asks() == Asked::Touch,
        remove.asks() == (Asked::RemoveFile {
            path: lager::entry_components(remove.address@, remove.kind),
        }),
        unused.unused ==> unused.asks() == (Asked::RemoveFile {
            path: lager::entry_components(unused.address@, unused.kind),
        }),
        !unused.unused ==> unused.asks() == (Asked::Modified {
            path: lager::entry_components(unused.address@, unused.kind),
        }),
{
}

/// Both forms of a store make the same directories: those of the entry.
pub proof fn law_stores_make_the_directories(at: StoreAt, raw: StoreRaw, kind: Kind)
    ensures
        at.stage is MakeDirs ==> (at.asks() matches Asked::CreateDirs { path } && path
            == lager::entry_components(at.address@, kind).take(2)),
        raw.stage is MakeDirs ==> (raw.asks() matches Asked::CreateDirs { path } && path
            == lager::entry_components(raw.address@, kind).take(2)),
{
    broadcast use crate::address::lemma_address_length;

    assert(lager::shard_components(at.address.hex(), 2).take(2) =~= lager::entry_components(
        at.address@,
        kind,
    ).take(2));
    assert(lager::shard_components(raw.address.hex(), 2).take(2) =~= lager::entry_components(
        raw.address@,
        kind,
    ).take(2));
}

/// Requests are viewed as they are.
pub proof fn law_requests_are_viewed_as_they_are(r: Request)
    ensures
        r is Touch <==> r@ is Touch,
        r is ProbeSource <==> r@ is ProbeSource,
        r matches Request::CreateDirs { path } ==> r@ == (Asked::CreateDirs {
            path: text::texts(path@),
        }),
        r matches Request::StoreSource { path, kind } ==> r@ == (Asked::StoreSource {
            path: text::texts(path@),
            kind,
        }),
        r matches Request::Open { path } ==> r@ == (Asked::Open { path: text::texts(path@) }),
        r matches Request::Extract { kind } ==> r@ == (Asked::Extract { kind }),
        r matches Request::Exists { path } ==> r@ == (Asked::Exists { path: text::texts(path@) }),
        r matches Request::WriteTemp { path } ==> r@ == (Asked::WriteTemp {
            path: text::texts(path@),
        }),
        r matches Request::Rename { from, to } ==> r@ == (Asked::Rename {
            from: text::texts(from@),
            to: text::texts(to@),
        }),
        r matches Request::RemoveFile { path } ==> r@ == (Asked::RemoveFile {
            path: text::texts(path@),
        }),
        r matches Request::Modified { path } ==> r@ == (Asked::Modified {
            path: text::texts(path@),
        }),
{
}

} // verus!
