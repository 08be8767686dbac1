//! What the operations of the store do to a file system that works.
//!
//! The file system is modelled as a map from paths to contents. Running the
//! machine of an operation on it says what the operation does as a whole.

use crate::address;
use crate::address::Address;
use crate::compression;
use crate::error::{Error, IoError, IoErrorKind};
use crate::lager;
use crate::lager::Kind;
use crate::operations::{
    Asked, OpenRaw, Remove, RemoveIfUnused, Reply, Retrieve, SourceKind, Step, StoreAt,
    StoreAtStage, StoreRaw, StoreRawStage,
};
use crate::text;
use vstd::prelude::*;

verus! {

/// Entries of different addresses, or of different kinds, stand at different
/// paths.
pub proof fn law_entry_paths_are_distinct(a: Seq<u8>, k: Kind, b: Seq<u8>, l: Kind)
    requires
        a.len() == 64,
        b.len() == 64,
        lager::entry_components(a, k) == lager::entry_components(b, l),
    ensures
        a == b,
        k == l,
{
    reveal_strlit(".");
    reveal_strlit("zst");
    reveal_strlit("tar.zst");
    let x = address::hex_encoding(a);
    let y = address::hex_encoding(b);
    let name = x + k.suffix();
    assert(lager::entry_components(a, k)[2] == name);
    assert(lager::entry_components(b, l)[2] == y + l.suffix());
    assert(x =~= name.take(128));
    assert(y =~= name.take(128));
    address::law_hex_is_injective(a, b);
    assert(k.suffix().len() == l.suffix().len());
}

/// A temporary file never stands at the path of an entry.
pub proof fn law_temp_is_no_entry(a: Seq<u8>, k: Kind, pid: u32, seq: u64, b: Seq<u8>, l: Kind)
    requires
        a.len() == 64,
        b.len() == 64,
    ensures
        lager::temp_components(a, k, pid, seq) != lager::entry_components(b, l),
{
    reveal_strlit(".");
    reveal_strlit("zst");
    reveal_strlit("tar.zst");
    reveal_strlit(".tmp");
    reveal_strlit("-");
    text::lemma_decimal_is_digits(pid as nat);
    text::lemma_decimal_is_digits(seq as nat);
    let temp = lager::temp_components(a, k, pid, seq)[2];
    let entry = lager::entry_components(b, l)[2];
    assert(temp.len() > entry.len());
}

/// Two writes share a temporary file only if they are the same write of the same
/// process.
pub proof fn law_temp_is_unique(
    a: Seq<u8>,
    k: Kind,
    pid: u32,
    seq: u64,
    b: Seq<u8>,
    l: Kind,
    pid2: u32,
    seq2: u64,
)
    requires
        a.len() == 64,
        b.len() == 64,
        lager::temp_components(a, k, pid, seq) == lager::temp_components(b, l, pid2, seq2),
    ensures
        a == b,
        k == l,
        pid == pid2,
        seq == seq2,
{
    reveal_strlit(".");
    reveal_strlit("zst");
    reveal_strlit("tar.zst");
    reveal_strlit(".tmp");
    reveal_strlit("-");
    text::lemma_decimal_is_digits(pid as nat);
    text::lemma_decimal_is_digits(seq as nat);
    text::lemma_decimal_is_digits(pid2 as nat);
    text::lemma_decimal_is_digits(seq2 as nat);
    let x = address::hex_encoding(a);
    let y = address::hex_encoding(b);
    let t = lager::temp_suffix(pid, seq);
    let u = lager::temp_suffix(pid2, seq2);
    let name = x + k.suffix() + t;
    let name2 = y + l.suffix() + u;
    assert(lager::temp_components(a, k, pid, seq)[2] == name);
    assert(lager::temp_components(b, l, pid2, seq2)[2] == name2);
    assert(x =~= name.take(128));
    assert(y =~= name2.take(128));
    address::law_hex_is_injective(a, b);
    assert(name[129] == k.suffix()[1]);
    assert(name2[129] == l.suffix()[1]);
    assert(k == l);
    let n = (128 + k.suffix().len()) as int;
    assert(t =~= name.skip(n));
    assert(u =~= name2.skip(n));
    let p = text::decimal(pid as nat);
    let p2 = text::decimal(pid2 as nat);
    let q = text::decimal(seq as nat);
    let q2 = text::decimal(seq2 as nat);
    assert(t.skip(5) =~= p.push('-') + q);
    assert(u.skip(5) =~= p2.push('-') + q2);
    text::lemma_split_is_unique(p, q, p2, q2, '-');
    text::law_decimal_is_injective(pid as nat, pid2 as nat);
    text::law_decimal_is_injective(seq as nat, seq2 as nat);
}

/// A file: its bytes and when it was last modified.
pub struct Stored {
    pub content: Seq<u8>,
    pub modified: i128,
}

/// An open file: where it was found and what it held then. It can be read on when the path is
/// gone or holds something else.
pub struct Opened {
    pub path: Seq<Seq<char>>,
    pub content: Seq<u8>,
}

/// A file system below the root of a store, with what an operation works on.
pub struct World {
    pub files: Map<Seq<Seq<char>>, Stored>,
    /// What stands at the source path, and its compressed form.
    pub source: SourceKind,
    pub compressed: Seq<u8>,
    /// The blob that comes in already compressed.
    pub incoming: Seq<u8>,
    pub now: i128,
    pub opened: Option<Opened>,
    /// What was extracted, still compressed, and as which kind.
    pub extracted: Option<(Kind, Seq<u8>)>,
}

/// The reply that there is no such file.
pub open spec fn missing() -> Reply {
    Reply::Failed(IoError { kind: IoErrorKind::NotFound, message: arbitrary() })
}

impl World {
    /// What a working file system does on a request, and what it replies.
    pub open spec fn serve(self, asked: Asked) -> (World, Reply) {
        match asked {
            Asked::CreateDirs { .. } => (self, Reply::Done),
            Asked::ProbeSource => (self, Reply::Source(self.source)),
            Asked::StoreSource { path, .. } => (
                World {
                    files: self.files.insert(
                        path,
                        Stored { content: self.compressed, modified: self.now },
                    ),
                    ..self
                },
                Reply::Done,
            ),
            Asked::Open { path } => if self.files.contains_key(path) {
                let opened = Opened { path, content: self.files[path].content };
                (World { opened: Some(opened), ..self }, Reply::Done)
            } else {
                (self, missing())
            },
            Asked::Touch => {
                let path = self.opened->0.path;
                if self.files.contains_key(path) {
                    (
                        World {
                            files: self.files.insert(
                                path,
                                Stored { modified: self.now, ..self.files[path] },
                            ),
                            ..self
                        },
                        Reply::Done,
                    )
                } else {
                    (self, Reply::Done)
                }
            },
            Asked::Extract { kind } => (
                World { extracted: Some((kind, self.opened->0.content)), ..self },
                Reply::Done,
            ),
            Asked::Exists { path } => (self, Reply::Exists(self.files.contains_key(path))),
            Asked::WriteTemp { path } => (
                World {
                    files: self.files.insert(
                        path,
                        Stored { content: self.incoming, modified: self.now },
                    ),
                    ..self
                },
                Reply::Done,
            ),
            Asked::Rename { from, to } => if self.files.contains_key(from) {
                (
                    World { files: self.files.insert(to, self.files[from]).remove(from), ..self },
                    Reply::Done,
                )
            } else {
                (self, missing())
            },
            Asked::RemoveFile { path } => if self.files.contains_key(path) {
                (World { files: self.files.remove(path), ..self }, Reply::Done)
            } else {
                (self, missing())
            },
            Asked::Modified { path } => if self.files.contains_key(path) {
                (self, Reply::ModifiedAt(self.files[path].modified))
            } else {
                (self, missing())
            },
        }
    }

    /// Whether there is an entry of a kind at an address.
    pub open spec fn has(self, a: Seq<u8>, k: Kind) -> bool {
        self.files.contains_key(lager::entry_components(a, k))
    }

    /// The entry of a kind at an address.
    pub open spec fn entry(self, a: Seq<u8>, k: Kind) -> Stored {
        self.files[lager::entry_components(a, k)]
    }

    /// The files after an entry of a kind took the place of what stood at an
    /// address.
    pub open spec fn replaced(self, a: Seq<u8>, k: Kind, content: Seq<u8>) -> Map<
        Seq<Seq<char>>,
        Stored,
    > {
        self.files.insert(
            lager::entry_components(a, k),
            Stored { content, modified: self.now },
        ).remove(lager::entry_components(a, k.other_kind()))
    }

    /// No address holds entries of both kinds.
    pub open spec fn single_entries(self) -> bool {
        forall|a: Seq<u8>|
            a.len() == 64 ==> !(#[trigger] self.has(a, Kind::File) && self.has(a, Kind::Dir))
    }
}

/// A machine of an operation. The rank bounds how many requests are still to come.
pub trait Machine: Sized {
    type Output;

    spec fn ask(self) -> Asked;

    spec fn next(self, reply: Reply) -> Step<Self, Self::Output>;

    spec fn rank(self) -> nat;
}

/// The whole of an operation: what it does to the file system, and its result.
pub open spec fn run<M: Machine>(m: M, w: World) -> (World, Result<M::Output, Error>)
    decreases m.rank(),
{
    let (v, reply) = w.serve(m.ask());
    match m.next(reply) {
        Step::Perform(n) => if n.rank() < m.rank() {
            run(n, v)
        } else {
            arbitrary()
        },
        Step::Finished(result) => (v, result),
    }
}

impl Machine for OpenRaw {
    type Output = Kind;

    open spec fn ask(self) -> Asked {
        self.asks()
    }

    open spec fn next(self, reply: Reply) -> Step<OpenRaw, Kind> {
        self.after(reply)
    }

    open spec fn rank(self) -> nat {
        if self.opened {
            0
        } else if self.kind == Kind::File {
            2
        } else {
            1
        }
    }
}

impl Machine for Retrieve {
    type Output = ();

    open spec fn ask(self) -> Asked {
        self.asks()
    }

    open spec fn next(self, reply: Reply) -> Step<Retrieve, ()> {
        self.after(reply)
    }

    open spec fn rank(self) -> nat {
        match self {
            Retrieve::Opening(open) => 1 + Machine::rank(open),
            Retrieve::Extracting { .. } => 0,
        }
    }
}

impl Machine for StoreAt {
    type Output = ();

    open spec fn ask(self) -> Asked {
        self.asks()
    }

    open spec fn next(self, reply: Reply) -> Step<StoreAt, ()> {
        self.after(reply)
    }

    open spec fn rank(self) -> nat {
        match self.stage {
            StoreAtStage::MakeDirs => 4,
            StoreAtStage::Probe => 3,
            StoreAtStage::Write(_) => 2,
            StoreAtStage::Rename(_) => 1,
            StoreAtStage::RemoveTemp { .. } => 0,
            StoreAtStage::RemoveOther(_) => 0,
        }
    }
}

impl Machine for StoreRaw {
    type Output = bool;

    open spec fn ask(self) -> Asked {
        self.asks()
    }

    open spec fn next(self, reply: Reply) -> Step<StoreRaw, bool> {
        self.after(reply)
    }

    open spec fn rank(self) -> nat {
        match self.stage {
            StoreRawStage::MakeDirs => 4,
            StoreRawStage::Probe => 3,
            StoreRawStage::Write { .. } => 2,
            StoreRawStage::Rename { .. } => 1,
            StoreRawStage::RemoveTemp { .. } => 0,
            StoreRawStage::RemoveOther { .. } => 0,
        }
    }
}

impl Machine for Remove {
    type Output = ();

    open spec fn ask(self) -> Asked {
        self.asks()
    }

    open spec fn next(self, reply: Reply) -> Step<Remove, ()> {
        self.after(reply)
    }

    open spec fn rank(self) -> nat {
        if self.kind == Kind::File {
            1
        } else {
            0
        }
    }
}

impl Machine for RemoveIfUnused {
    type Output = bool;

    open spec fn ask(self) -> Asked {
        self.asks()
    }

    open spec fn next(self, reply: Reply) -> Step<RemoveIfUnused, bool> {
        self.after(reply)
    }

    open spec fn rank(self) -> nat {
        match (self.kind, self.unused) {
            (Kind::File, false) => 3,
            (Kind::File, true) => 2,
            (Kind::Dir, false) => 1,
            (Kind::Dir, true) => 0,
        }
    }
}

/// Opening finds the entry of an address, a file before a directory, and marks it
/// as used now; that there is none is the error `NotFound`. Nothing else changes.
pub proof fn law_open_raw(address: Address, w: World)
    ensures
        ({
            let (v, r) = run(OpenRaw { address, kind: Kind::File, opened: false }, w);
            let touched = |k: Kind| {
                let path = lager::entry_components(address@, k);
                &&& r == Ok::<Kind, Error>(k)
                &&& v.opened == Some(Opened { path, content: w.files[path].content })
                &&& v.files == w.files.insert(path, Stored { modified: w.now, ..w.files[path] })
            };
            if w.has(address@, Kind::File) {
                touched(Kind::File)
            } else if w.has(address@, Kind::Dir) {
                touched(Kind::Dir)
            } else {
                r == Err::<Kind, Error>(Error::NotFound { address }) && v.files == w.files
            }
        }),
{
    reveal_with_fuel(run, 4);
}

/// Storing a blob puts it in the place of what stood at the address, and says
/// whether there was no entry of its kind. Nothing else changes, and no temporary
/// file stays.
pub proof fn law_store_raw(address: Address, kind: Kind, pid: u32, seq: u64, w: World)
    requires
        !w.files.contains_key(lager::temp_components(address@, kind, pid, seq)),
    ensures
        ({
            let op = StoreRaw { address, kind, pid, seq, stage: StoreRawStage::MakeDirs };
            let (v, r) = run(op, w);
            &&& r == Ok::<bool, Error>(!w.has(address@, kind))
            &&& v.files == w.replaced(address@, kind, w.incoming)
        }),
{
    broadcast use crate::address::lemma_address_length;

    reveal_with_fuel(run, 7);
    law_temp_is_no_entry(address@, kind, pid, seq, address@, kind);
    law_temp_is_no_entry(address@, kind, pid, seq, address@, kind.other_kind());
    let op = StoreRaw { address, kind, pid, seq, stage: StoreRawStage::MakeDirs };
    let (v, r) = run(op, w);
    assert(v.files =~= w.replaced(address@, kind, w.incoming));
}

/// Storing a file or directory puts its compressed form in the place of what stood
/// at the address. What is neither is refused, and nothing changes. No temporary file stays.
pub proof fn law_store_at(address: Address, source: String, pid: u32, seq: u64, w: World)
    requires
        forall|k: Kind|
            !w.files.contains_key(#[trigger] lager::temp_components(address@, k, pid, seq)),
    ensures
        ({
            let op = StoreAt { address, source, pid, seq, stage: StoreAtStage::MakeDirs };
            let (v, r) = run(op, w);
            match w.source {
                SourceKind::File => {
                    &&& r == Ok::<(), Error>(())
                    &&& v.files == w.replaced(address@, Kind::File, w.compressed)
                },
                SourceKind::Dir => {
                    &&& r == Ok::<(), Error>(())
                    &&& v.files == w.replaced(address@, Kind::Dir, w.compressed)
                },
                SourceKind::Other => {
                    &&& r == Err::<(), Error>(Error::NoSuchFile { path: source })
                    &&& v.files == w.files
                },
            }
        }),
{
    broadcast use crate::address::lemma_address_length;

    reveal_with_fuel(run, 6);
    assert forall|k: Kind, l: Kind| #[trigger]
        lager::temp_components(address@, k, pid, seq) != #[trigger] lager::entry_components(
            address@,
            l,
        ) by {
        law_temp_is_no_entry(address@, k, pid, seq, address@, l);
    }
    let op = StoreAt { address, source, pid, seq, stage: StoreAtStage::MakeDirs };
    let (v, r) = run(op, w);
    if w.source == SourceKind::File {
        assert(v.files =~= w.replaced(address@, Kind::File, w.compressed));
    }
    if w.source == SourceKind::Dir {
        assert(v.files =~= w.replaced(address@, Kind::Dir, w.compressed));
    }
}

/// Retrieving extracts the entry of an address as what it was stored, and marks it
/// as used now; that there is none is the error `NotFound`.
pub proof fn law_retrieve(address: Address, w: World)
    ensures
        ({
            let open = OpenRaw { address, kind: Kind::File, opened: false };
            let (v, r) = run(Retrieve::Opening(open), w);
            let extracted = |k: Kind| {
                let path = lager::entry_components(address@, k);
                &&& r == Ok::<(), Error>(())
                &&& v.extracted == Some((k, w.entry(address@, k).content))
                &&& v.files == w.files.insert(path, Stored { modified: w.now, ..w.files[path] })
            };
            if w.has(address@, Kind::File) {
                extracted(Kind::File)
            } else if w.has(address@, Kind::Dir) {
                extracted(Kind::Dir)
            } else {
                r == Err::<(), Error>(Error::NotFound { address }) && v.files == w.files
            }
        }),
{
    reveal_with_fuel(run, 5);
}

/// Removing takes the entry of an address away, a file before a directory. That
/// there is none is no error.
pub proof fn law_remove(address: Address, w: World)
    ensures
        ({
            let (v, r) = run(Remove { address, kind: Kind::File }, w);
            &&& r == Ok::<(), Error>(())
            &&& v.files == w.files.remove(
                lager::entry_components(
                    address@,
                    if w.has(address@, Kind::File) {
                        Kind::File
                    } else {
                        Kind::Dir
                    },
                ),
            )
        }),
{
    reveal_with_fuel(run, 3);
    let (v, r) = run(Remove { address, kind: Kind::File }, w);
    if !w.has(address@, Kind::File) && !w.has(address@, Kind::Dir) {
        assert(v.files =~= w.files.remove(lager::entry_components(address@, Kind::Dir)));
    }
}

/// The removal of an unused entry takes it away if and only if it was not modified
/// after the time given, and says whether it did.
pub proof fn law_remove_if_unused_since(address: Address, since: i128, w: World)
    ensures
        ({
            let op = RemoveIfUnused { address, since, kind: Kind::File, unused: false };
            let (v, r) = run(op, w);
            let decided = |k: Kind| {
                let unused = w.entry(address@, k).modified <= since;
                &&& r == Ok::<bool, Error>(unused)
                &&& v.files == if unused {
                    w.files.remove(lager::entry_components(address@, k))
                } else {
                    w.files
                }
            };
            if w.has(address@, Kind::File) {
                decided(Kind::File)
            } else if w.has(address@, Kind::Dir) {
                decided(Kind::Dir)
            } else {
                r == Ok::<bool, Error>(false) && v.files == w.files
            }
        }),
{
    reveal_with_fuel(run, 5);
}

/// What `replaced` does to other addresses, and that addresses keep single entries.
proof fn lemma_replaced(w: World, a: Seq<u8>, k: Kind, content: Seq<u8>, v: World)
    requires
        a.len() == 64,
        v.files == w.replaced(a, k, content),
    ensures
        v.has(a, k),
        v.entry(a, k) == (Stored { content, modified: w.now }),
        !v.has(a, k.other_kind()),
        forall|b: Seq<u8>, l: Kind|
            b.len() == 64 && b != a ==> {
                &&& #[trigger] v.has(b, l) == w.has(b, l)
                &&& v.entry(b, l) == w.entry(b, l)
            },
        w.single_entries() ==> v.single_entries(),
{
    if lager::entry_components(a, k) == lager::entry_components(a, k.other_kind()) {
        law_entry_paths_are_distinct(a, k, a, k.other_kind());
    }
    assert forall|b: Seq<u8>, l: Kind| b.len() == 64 && b != a implies {
        &&& #[trigger] v.has(b, l) == w.has(b, l)
        &&& v.entry(b, l) == w.entry(b, l)
    } by {
        if lager::entry_components(b, l) == lager::entry_components(a, k) {
            law_entry_paths_are_distinct(b, l, a, k);
        }
        if lager::entry_components(b, l) == lager::entry_components(a, k.other_kind()) {
            law_entry_paths_are_distinct(b, l, a, k.other_kind());
        }
    }
    if w.single_entries() {
        assert forall|b: Seq<u8>| b.len() == 64 implies !(#[trigger] v.has(b, Kind::File) && v.has(
            b,
            Kind::Dir,
        )) by {
            if b != a {
                assert(v.has(b, Kind::File) == w.has(b, Kind::File));
                assert(v.has(b, Kind::Dir) == w.has(b, Kind::Dir));
            }
        }
    }
}

/// A blob that was stored is what the next opening of its address gives, of the
/// kind it was stored with, whatever stood there before.
pub proof fn law_stored_blob_is_opened(
    address: Address,
    kind: Kind,
    pid: u32,
    seq: u64,
    w: World,
    later: i128,
)
    requires
        !w.files.contains_key(lager::temp_components(address@, kind, pid, seq)),
    ensures
        ({
            let op = StoreRaw { address, kind, pid, seq, stage: StoreRawStage::MakeDirs };
            let v = World { now: later, ..run(op, w).0 };
            let (u, r) = run(OpenRaw { address, kind: Kind::File, opened: false }, v);
            &&& r == Ok::<Kind, Error>(kind)
            &&& u.opened matches Some(file) && file.content == w.incoming
            &&& u.entry(address@, kind) == (Stored { content: w.incoming, modified: later })
        }),
{
    broadcast use crate::address::lemma_address_length;

    law_store_raw(address, kind, pid, seq, w);
    let op = StoreRaw { address, kind, pid, seq, stage: StoreRawStage::MakeDirs };
    let v = World { now: later, ..run(op, w).0 };
    lemma_replaced(w, address@, kind, w.incoming, v);
    law_open_raw(address, v);
}

/// What was stored from a source path is what the next retrieval of its address
/// extracts, as the kind that stood at the source path, whatever the address held
/// before.
pub proof fn law_stored_source_is_retrieved(
    address: Address,
    source: String,
    pid: u32,
    seq: u64,
    kind: Kind,
    w: World,
    later: i128,
)
    requires
        forall|k: Kind|
            !w.files.contains_key(#[trigger] lager::temp_components(address@, k, pid, seq)),
        w.source == match kind {
            Kind::File => SourceKind::File,
            Kind::Dir => SourceKind::Dir,
        },
    ensures
        ({
            let op = StoreAt { address, source, pid, seq, stage: StoreAtStage::MakeDirs };
            let v = World { now: later, ..run(op, w).0 };
            let open = OpenRaw { address, kind: Kind::File, opened: false };
            let (u, r) = run(Retrieve::Opening(open), v);
            &&& r == Ok::<(), Error>(())
            &&& u.extracted == Some((kind, w.compressed))
        }),
{
    broadcast use crate::address::lemma_address_length;

    law_store_at(address, source, pid, seq, w);
    let op = StoreAt { address, source, pid, seq, stage: StoreAtStage::MakeDirs };
    let v = World { now: later, ..run(op, w).0 };
    lemma_replaced(w, address@, kind, w.compressed, v);
    law_retrieve(address, v);
}

/// The data that was stored is what is retrieved: where the compressed form of a source holds
/// some data, as compressing that data makes it, the bytes that the next retrieval extracts
/// hold the same data.
pub proof fn law_stored_data_is_restored(
    address: Address,
    source: String,
    pid: u32,
    seq: u64,
    kind: Kind,
    w: World,
    later: i128,
    data: Seq<u8>,
)
    requires
        forall|k: Kind|
            !w.files.contains_key(#[trigger] lager::temp_components(address@, k, pid, seq)),
        w.source == match kind {
            Kind::File => SourceKind::File,
            Kind::Dir => SourceKind::Dir,
        },
        compression::zstd_content(w.compressed) == Some(data),
    ensures
        ({
            let op = StoreAt { address, source, pid, seq, stage: StoreAtStage::MakeDirs };
            let v = World { now: later, ..run(op, w).0 };
            let open = OpenRaw { address, kind: Kind::File, opened: false };
            let (u, r) = run(Retrieve::Opening(open), v);
            &&& r == Ok::<(), Error>(())
            &&& u.extracted matches Some((k, bytes)) && {
                &&& k == kind
                &&& compression::zstd_content(bytes) == Some(data)
            }
        }),
{
    law_stored_source_is_retrieved(address, source, pid, seq, kind, w, later);
}

/// Storing leaves exactly one entry at its address, and the entries of all other
/// addresses as they were.
pub proof fn law_store_raw_keeps_single_entries(
    address: Address,
    kind: Kind,
    pid: u32,
    seq: u64,
    w: World,
)
    requires
        !w.files.contains_key(lager::temp_components(address@, kind, pid, seq)),
    ensures
        ({
            let op = StoreRaw { address, kind, pid, seq, stage: StoreRawStage::MakeDirs };
            let v = run(op, w).0;
            &&& v.has(address@, kind)
            &&& !v.has(address@, kind.other_kind())
            &&& w.single_entries() ==> v.single_entries()
            &&& forall|b: Seq<u8>, l: Kind|
                b.len() == 64 && b != address@ ==> {
                    &&& #[trigger] v.has(b, l) == w.has(b, l)
                    &&& v.entry(b, l) == w.entry(b, l)
                }
        }),
{
    broadcast use crate::address::lemma_address_length;

    law_store_raw(address, kind, pid, seq, w);
    let op = StoreRaw { address, kind, pid, seq, stage: StoreRawStage::MakeDirs };
    lemma_replaced(w, address@, kind, w.incoming, run(op, w).0);
}

/// Storing from a source path leaves exactly one entry at its address, and the
/// entries of all other addresses as they were.
#[verifier::spinoff_prover]
#[verifier::rlimit(40)]
pub proof fn law_store_at_keeps_single_entries(
    address: Address,
    source: String,
    pid: u32,
    seq: u64,
    kind: Kind,
    w: World,
)
    requires
        forall|k: Kind|
            !w.files.contains_key(#[trigger] lager::temp_components(address@, k, pid, seq)),
        w.source == match kind {
            Kind::File => SourceKind::File,
            Kind::Dir => SourceKind::Dir,
        },
    ensures
        ({
            let op = StoreAt { address, source, pid, seq, stage: StoreAtStage::MakeDirs };
            let v = run(op, w).0;
            &&& v.has(address@, kind)
            &&& !v.has(address@, kind.other_kind())
            &&& w.single_entries() ==> v.single_entries()
            &&& forall|b: Seq<u8>, l: Kind|
                b.len() == 64 && b != address@ ==> {
                    &&& #[trigger] v.has(b, l) == w.has(b, l)
                    &&& v.entry(b, l) == w.entry(b, l)
                }
        }),
{
    broadcast use crate::address::lemma_address_length;

    let op = StoreAt { address, source, pid, seq, stage: StoreAtStage::MakeDirs };
    let v = run(op, w).0;
    assert(v.files == w.replaced(address@, kind, w.compressed)) by {
        law_store_at(address, source, pid, seq, w);
    }
    lemma_replaced(w, address@, kind, w.compressed, v);
    assert forall|b: Seq<u8>, l: Kind| b.len() == 64 && b != address@ implies {
        &&& #[trigger] v.has(b, l) == w.has(b, l)
        &&& v.entry(b, l) == w.entry(b, l)
    } by {}
    assert(v.has(address@, kind) && !v.has(address@, kind.other_kind()));
    assert(w.single_entries() ==> v.single_entries());
}

/// After a removal nothing stands at the address, and opening it is `NotFound`. It
/// takes that the address held no entries of both kinds.
pub proof fn law_removed_entry_is_gone(address: Address, w: World)
    requires
        w.single_entries(),
    ensures
        ({
            let v = run(Remove { address, kind: Kind::File }, w).0;
            let (u, r) = run(OpenRaw { address, kind: Kind::File, opened: false }, v);
            &&& !v.has(address@, Kind::File)
            &&& !v.has(address@, Kind::Dir)
            &&& r == Err::<Kind, Error>(Error::NotFound { address })
        }),
{
    broadcast use crate::address::lemma_address_length;

    law_remove(address, w);
    let v = run(Remove { address, kind: Kind::File }, w).0;
    law_open_raw(address, v);
    assert(!(w.has(address@, Kind::File) && w.has(address@, Kind::Dir)));
}

/// An entry that was used after a time survives the removal of unused entries: a
/// retrieval at any later time protects it.
pub proof fn law_used_entry_survives(address: Address, since: i128, w: World)
    requires
        w.now > since,
        w.has(address@, Kind::File) || w.has(address@, Kind::Dir),
    ensures
        ({
            let open = OpenRaw { address, kind: Kind::File, opened: false };
            let v = run(Retrieve::Opening(open), w).0;
            let op = RemoveIfUnused { address, since, kind: Kind::File, unused: false };
            let (u, r) = run(op, v);
            &&& r == Ok::<bool, Error>(false)
            &&& u.files == v.files
            &&& u.has(address@, Kind::File) || u.has(address@, Kind::Dir)
        }),
{
    broadcast use crate::address::lemma_address_length;

    law_retrieve(address, w);
    let open = OpenRaw { address, kind: Kind::File, opened: false };
    let v = run(Retrieve::Opening(open), w).0;
    if lager::entry_components(address@, Kind::File) == lager::entry_components(
        address@,
        Kind::Dir,
    ) {
        law_entry_paths_are_distinct(address@, Kind::File, address@, Kind::Dir);
    }
    law_remove_if_unused_since(address, since, v);
}

/// A file that vanishes while a blob is opened, as when it is evicted, is never a
/// failure: before it is open it makes a miss, and once it is open it is read all the
/// same.
pub proof fn law_vanished_blob_is_no_failure(op: OpenRaw, reply: Reply)
    requires
        op.asks().admits(reply),
        reply is Done || crate::operations::is_missing(reply),
    ensures
        match op.after(reply) {
            Step::Perform(_) => true,
            Step::Finished(Ok(kind)) => op.opened && kind == op.kind,
            Step::Finished(Err(e)) => !op.opened && e == (Error::NotFound { address: op.address }),
        },
{
}

/// Readers never see a part of a blob: its bytes only ever go to a file that is no
/// entry, and that file becomes the entry only once all of it was written.
pub proof fn law_blob_appears_whole(op: StoreRaw, reply: Reply, b: Seq<u8>, l: Kind)
    requires
        op.asks().admits(reply),
        b.len() == 64,
    ensures
        op.asks() matches Asked::WriteTemp { path } ==> path != lager::entry_components(b, l),
        !(op.asks() is StoreSource),
        op.after(reply) matches Step::Perform(n) ==> (n.asks() is Rename ==> op.asks()
            is WriteTemp && reply is Done),
{
    broadcast use crate::address::lemma_address_length;

    law_temp_is_no_entry(op.address@, op.kind, op.pid, op.seq, b, l);
}

/// What is stored from a source path is never written where an entry stands: its bytes only
/// ever go to a file that is no entry, and that file becomes the entry only once all of it
/// was written.
pub proof fn law_source_appears_whole(op: StoreAt, reply: Reply, b: Seq<u8>, l: Kind)
    requires
        op.asks().admits(reply),
        b.len() == 64,
    ensures
        op.asks() matches Asked::StoreSource { path, .. } ==> path != lager::entry_components(
            b,
            l,
        ),
        !(op.asks() is WriteTemp),
        op.after(reply) matches Step::Perform(n) ==> (n.asks() is Rename ==> op.asks()
            is StoreSource && reply is Done),
{
    broadcast use crate::address::lemma_address_length;

    assert forall|k: Kind| #[trigger] op.temp(k) != lager::entry_components(b, l) by {
        law_temp_is_no_entry(op.address@, k, op.pid, op.seq, b, l);
    }
}

/// A raw store whose write fails is cleaned up after: all that is asked then is that the
/// temporary file goes, and whatever comes of that, the result is the error.
pub proof fn law_failed_write_is_cleaned_up(op: StoreRaw, cause: IoError, removed: Reply)
    requires
        op.asks() is WriteTemp || op.asks() is Rename,
    ensures
        op.after(Reply::Failed(cause)) matches Step::Perform(n) && {
            &&& n.asks() == (Asked::RemoveFile { path: op.temp() })
            &&& n.after(removed) == Step::<StoreRaw, bool>::Finished(Err(Error::Io(cause)))
        },
{
}

/// A store from a source path whose write fails is cleaned up after in the same way.
pub proof fn law_failed_source_is_cleaned_up(op: StoreAt, cause: IoError, removed: Reply)
    requires
        op.asks() is StoreSource || op.asks() is Rename,
    ensures
        op.after(Reply::Failed(cause)) matches Step::Perform(n) && {
            &&& exists|k: Kind| n.asks() == (Asked::RemoveFile { path: #[trigger] op.temp(k) })
            &&& n.after(removed) == Step::<StoreAt, ()>::Finished(Err(Error::Io(cause)))
        },
{
    let kind = match op.stage {
        StoreAtStage::Write(kind) => kind,
        StoreAtStage::Rename(kind) => kind,
        _ => Kind::File,
    };
    let n = op.after(Reply::Failed(cause))->Perform_0;
    assert(n.asks() == (Asked::RemoveFile { path: op.temp(kind) }));
}

} // verus!
