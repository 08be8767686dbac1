//! What the stores do to a file system that fails at any point, or when they are stopped.
//!
//! Each request comes to an outcome. An operation with fewer outcomes than it has requests
//! was stopped, as when its process is killed. A write may fail, or be stopped, with a part
//! of its file written. A rename, a removal and the creation of a directory are done whole
//! or not at all.

use crate::address::Address;
use crate::error::{Error, IoError, IoErrorKind};
use crate::lager;
use crate::lager::Kind;
use crate::model;
use crate::model::{Machine, Stored, World};
use crate::operations::{
    Asked, Reply, SourceKind, Step, StoreAt, StoreAtStage, StoreRaw, StoreRawStage,
};
use vstd::prelude::*;

verus! {

/// What becomes of a request.
pub enum Outcome {
    Works,
    /// It fails. A write leaves a part of its file, or none.
    Fails { error: IoError, part: Option<Stored> },
}

/// Whether a request can fail with an error. That a file to be removed is not there is said
/// only if it is not.
pub open spec fn can_fail(asked: Asked, error: IoError) -> bool {
    &&& asked.admits(Reply::Failed(error))
    &&& asked is RemoveFile ==> error.kind != IoErrorKind::NotFound
}

impl World {
    /// What is left of a request that failed.
    pub open spec fn faltered(self, asked: Asked, part: Option<Stored>) -> World {
        match (asked, part) {
            (Asked::StoreSource { path, .. }, Some(part)) => World {
                files: self.files.insert(path, part),
                ..self
            },
            (Asked::WriteTemp { path }, Some(part)) => World {
                files: self.files.insert(path, part),
                ..self
            },
            _ => self,
        }
    }

    /// What a request does, and its reply. One that has no such failure for a reply works.
    pub open spec fn endure(self, asked: Asked, outcome: Outcome) -> (World, Reply) {
        match outcome {
            Outcome::Fails { error, part } if can_fail(asked, error) => (
                self.faltered(asked, part),
                Reply::Failed(error),
            ),
            _ => self.serve(asked),
        }
    }

    /// Whether the entries of all addresses are as in another world.
    pub open spec fn same_entries(self, other: World) -> bool {
        forall|b: Seq<u8>, l: Kind| b.len() == 64 ==> #[trigger] self.same_entry(other, b, l)
    }

    /// Whether the entry of a kind at an address is as in another world.
    pub open spec fn same_entry(self, other: World, b: Seq<u8>, l: Kind) -> bool {
        &&& self.has(b, l) == other.has(b, l)
        &&& self.has(b, l) ==> self.entry(b, l) == other.entry(b, l)
    }
}

/// An operation whose requests come to some outcomes: what it does to the file system, and
/// its result, or none if it was stopped.
pub open spec fn suffer<M: Machine>(m: M, w: World, outcomes: Seq<Outcome>) -> (
    World,
    Option<Result<M::Output, Error>>,
)
    decreases outcomes.len(),
{
    if outcomes.len() == 0 {
        (w, None)
    } else {
        let (v, reply) = w.endure(m.ask(), outcomes[0]);
        match m.next(reply) {
            Step::Perform(n) => suffer(n, v, outcomes.drop_first()),
            Step::Finished(result) => (v, Some(result)),
        }
    }
}

/// Whether a world came of another by a store that may have failed or been stopped: the
/// entries of other addresses are as before, and so are those of its own, unless all of the
/// blob stands there. Then one of the other kind is as before or gone.
pub open spec fn is_untorn(w: World, v: World, a: Seq<u8>, k: Kind, blob: Seq<u8>) -> bool {
    &&& forall|b: Seq<u8>, l: Kind| b.len() == 64 && b != a ==> #[trigger] v.same_entry(w, b, l)
    &&& {
        ||| v.same_entry(w, a, k) && v.same_entry(w, a, k.other_kind())
        ||| is_stored(w, v, a, k, blob)
    }
}

/// Whether all of a blob stands at an address, and one of the other kind is as before or
/// gone.
pub open spec fn is_stored(w: World, v: World, a: Seq<u8>, k: Kind, blob: Seq<u8>) -> bool {
    &&& v.has(a, k)
    &&& v.entry(a, k).content == blob
    &&& !v.has(a, k.other_kind()) || v.same_entry(w, a, k.other_kind())
}

/// A temporary file that comes, changes or goes leaves every entry as it was.
proof fn lemma_temp_leaves_entries(w: World, v: World, a: Seq<u8>, k: Kind, pid: u32, seq: u64)
    requires
        a.len() == 64,
        forall|path: Seq<Seq<char>>|
            path != lager::temp_components(a, k, pid, seq) ==> #[trigger] v.files.contains_key(path)
                == w.files.contains_key(path) && (w.files.contains_key(path) ==> v.files[path]
                == w.files[path]),
    ensures
        v.same_entries(w),
{
    assert forall|b: Seq<u8>, l: Kind| b.len() == 64 implies #[trigger] v.same_entry(w, b, l) by {
        model::law_temp_is_no_entry(a, k, pid, seq, b, l);
        let path = lager::entry_components(b, l);
        assert(v.files.contains_key(path) == w.files.contains_key(path));
    }
}

/// What a rename of a temporary file into place does to the entries.
proof fn lemma_renamed(w: World, v: World, a: Seq<u8>, k: Kind, pid: u32, seq: u64)
    requires
        a.len() == 64,
        w.files.contains_key(lager::temp_components(a, k, pid, seq)),
        v == w.serve(
            Asked::Rename {
                from: lager::temp_components(a, k, pid, seq),
                to: lager::entry_components(a, k),
            },
        ).0,
    ensures
        v.has(a, k),
        v.entry(a, k) == w.files[lager::temp_components(a, k, pid, seq)],
        v.same_entry(w, a, k.other_kind()),
        forall|b: Seq<u8>, l: Kind| b.len() == 64 && b != a ==> #[trigger] v.same_entry(w, b, l),
{
    model::law_temp_is_no_entry(a, k, pid, seq, a, k);
    model::law_temp_is_no_entry(a, k, pid, seq, a, k.other_kind());
    if lager::entry_components(a, k) == lager::entry_components(a, k.other_kind()) {
        model::law_entry_paths_are_distinct(a, k, a, k.other_kind());
    }
    assert forall|b: Seq<u8>, l: Kind| b.len() == 64 && b != a implies #[trigger] v.same_entry(
        w,
        b,
        l,
    ) by {
        model::law_temp_is_no_entry(a, k, pid, seq, b, l);
        if lager::entry_components(a, k) == lager::entry_components(b, l) {
            model::law_entry_paths_are_distinct(a, k, b, l);
        }
    }
}

/// What the removal of an entry of the other kind does to the entries.
proof fn lemma_other_removed(w: World, v: World, a: Seq<u8>, k: Kind)
    requires
        a.len() == 64,
        v == w.serve(
            Asked::RemoveFile { path: lager::entry_components(a, k.other_kind()) },
        ).0,
    ensures
        !v.has(a, k.other_kind()),
        v.same_entry(w, a, k),
        forall|b: Seq<u8>, l: Kind| b.len() == 64 && b != a ==> #[trigger] v.same_entry(w, b, l),
{
    if lager::entry_components(a, k) == lager::entry_components(a, k.other_kind()) {
        model::law_entry_paths_are_distinct(a, k, a, k.other_kind());
    }
    assert forall|b: Seq<u8>, l: Kind| b.len() == 64 && b != a implies #[trigger] v.same_entry(
        w,
        b,
        l,
    ) by {
        if lager::entry_components(a, k.other_kind()) == lager::entry_components(b, l) {
            model::law_entry_paths_are_distinct(a, k.other_kind(), b, l);
        }
    }
}

/// Where the file system stands when a raw store is at a stage.
spec fn is_raw_on_course(op: StoreRaw, w: World, v: World) -> bool {
    &&& v.incoming == w.incoming
    &&& match op.stage {
        StoreRawStage::RemoveOther { .. } => {
            &&& is_stored(w, v, op.address@, op.kind, w.incoming)
            &&& forall|b: Seq<u8>, l: Kind|
                b.len() == 64 && b != op.address@ ==> #[trigger] v.same_entry(w, b, l)
        },
        StoreRawStage::Rename { .. } => {
            &&& v.same_entries(w)
            &&& v.files.contains_key(op.temp())
            &&& v.files[op.temp()].content == w.incoming
        },
        _ => v.same_entries(w),
    }
}

proof fn lemma_raw_is_never_torn(op: StoreRaw, w: World, v: World, outcomes: Seq<Outcome>)
    requires
        is_raw_on_course(op, w, v),
    ensures
        ({
            let (u, r) = suffer(op, v, outcomes);
            &&& is_untorn(w, u, op.address@, op.kind, w.incoming)
            &&& r matches Some(Ok(_)) ==> {
                &&& is_stored(w, u, op.address@, op.kind, w.incoming)
                &&& !u.has(op.address@, op.kind.other_kind())
            }
        }),
    decreases outcomes.len(),
{
    broadcast use crate::address::lemma_address_length;

    let a = op.address@;
    let k = op.kind;
    assert(v.same_entries(w) ==> v.same_entry(w, a, k) && v.same_entry(w, a, k.other_kind()));
    if outcomes.len() > 0 {
        let (x, reply) = v.endure(op.asks(), outcomes[0]);
        match op.stage {
            StoreRawStage::MakeDirs => {},
            StoreRawStage::Probe => {},
            StoreRawStage::Write { .. } | StoreRawStage::RemoveTemp { .. } => {
                lemma_temp_leaves_entries(v, x, a, k, op.pid, op.seq);
                lemma_same_entries_transitive(w, v, x);
            },
            StoreRawStage::Rename { .. } => {
                if reply is Done {
                    lemma_renamed(v, x, a, k, op.pid, op.seq);
                    assert forall|b: Seq<u8>, l: Kind|
                        b.len() == 64 && b != a implies #[trigger] x.same_entry(w, b, l) by {
                        assert(x.same_entry(v, b, l) && v.same_entry(w, b, l));
                    }
                }
            },
            StoreRawStage::RemoveOther { .. } => {
                if !(outcomes[0] matches Outcome::Fails { error, .. } && can_fail(
                    op.asks(),
                    error,
                )) {
                    lemma_other_removed(v, x, a, k);
                    assert forall|b: Seq<u8>, l: Kind|
                        b.len() == 64 && b != a implies #[trigger] x.same_entry(w, b, l) by {
                        assert(x.same_entry(v, b, l) && v.same_entry(w, b, l));
                    }
                }
            },
        }
        assert(x.same_entries(w) ==> x.same_entry(w, a, k) && x.same_entry(w, a, k.other_kind()));
        if let Step::Perform(n) = op.after(reply) {
            lemma_raw_is_never_torn(n, w, x, outcomes.drop_first());
        }
    }
}

proof fn lemma_same_entries_transitive(w: World, v: World, u: World)
    requires
        v.same_entries(w),
        u.same_entries(v),
    ensures
        u.same_entries(w),
{
    assert forall|b: Seq<u8>, l: Kind| b.len() == 64 implies #[trigger] u.same_entry(w, b, l) by {
        assert(v.same_entry(w, b, l) && u.same_entry(v, b, l));
    }
}

/// A raw store is never torn: whatever fails and wherever it is stopped, the entries are as
/// they were, but that all of the blob may stand at its address. It succeeds only if the blob
/// does, and nothing of the other kind.
pub proof fn law_store_raw_is_never_torn(
    address: Address,
    kind: Kind,
    pid: u32,
    seq: u64,
    w: World,
    outcomes: Seq<Outcome>,
)
    ensures
        ({
            let op = StoreRaw { address, kind, pid, seq, stage: StoreRawStage::MakeDirs };
            let (v, r) = suffer(op, w, outcomes);
            &&& is_untorn(w, v, address@, kind, w.incoming)
            &&& r matches Some(Ok(_)) ==> {
                &&& is_stored(w, v, address@, kind, w.incoming)
                &&& !v.has(address@, kind.other_kind())
            }
        }),
{
    let op = StoreRaw { address, kind, pid, seq, stage: StoreRawStage::MakeDirs };
    lemma_raw_is_never_torn(op, w, w, outcomes);
}

/// A raw store whose write or rename fails: whatever the removal of the temporary file comes
/// to, the result is the error, and every entry of either kind, at its own and every other
/// address, is as before. If the removal works, nothing stays of the write.
pub proof fn law_failed_store_raw_changes_nothing(
    address: Address,
    kind: Kind,
    pid: u32,
    seq: u64,
    w: World,
    outcomes: Seq<Outcome>,
    at: int,
    error: IoError,
)
    requires
        !w.files.contains_key(lager::temp_components(address@, kind, pid, seq)),
        at == 2 || at == 3,
        outcomes.len() > at + 1,
        forall|i: int| 0 <= i < at ==> #[trigger] outcomes[i] is Works,
        outcomes[at] matches Outcome::Fails { error: e, .. } && e == error,
    ensures
        ({
            let op = StoreRaw { address, kind, pid, seq, stage: StoreRawStage::MakeDirs };
            let (v, r) = suffer(op, w, outcomes);
            &&& r == Some(Err::<bool, Error>(Error::Io(error)))
            &&& v.same_entries(w)
            &&& outcomes[at + 1] is Works ==> v.files == w.files
        }),
{
    broadcast use crate::address::lemma_address_length;

    reveal_with_fuel(suffer, 6);
    let op = StoreRaw { address, kind, pid, seq, stage: StoreRawStage::MakeDirs };
    let (v, r) = suffer(op, w, outcomes);
    let rest = outcomes.drop_first().drop_first().drop_first();
    assert(outcomes.drop_first()[0] == outcomes[1]);
    assert(outcomes.drop_first().drop_first()[0] == outcomes[2]);
    assert(rest[0] == outcomes[3]);
    if at == 3 {
        assert(rest.drop_first()[0] == outcomes[4]);
    }
    lemma_temp_leaves_entries(w, v, address@, kind, pid, seq);
    if outcomes[at + 1] is Works {
        assert(v.files =~= w.files);
    }
}

/// The kind that a source is stored as, if it can be.
pub open spec fn stored_kind(source: SourceKind) -> Option<Kind> {
    match source {
        SourceKind::File => Some(Kind::File),
        SourceKind::Dir => Some(Kind::Dir),
        SourceKind::Other => None,
    }
}

/// Where the file system stands when a store from a source path is at a stage.
spec fn is_source_on_course(op: StoreAt, kind: Kind, w: World, v: World) -> bool {
    &&& v.source == w.source
    &&& v.compressed == w.compressed
    &&& match op.stage {
        StoreAtStage::MakeDirs | StoreAtStage::Probe => v.same_entries(w),
        StoreAtStage::Write(k) => k == kind && v.same_entries(w),
        StoreAtStage::Rename(k) => {
            &&& k == kind
            &&& v.same_entries(w)
            &&& v.files.contains_key(op.temp(k))
            &&& v.files[op.temp(k)].content == w.compressed
        },
        StoreAtStage::RemoveTemp { kind: k, .. } => k == kind && v.same_entries(w),
        StoreAtStage::RemoveOther(k) => {
            &&& k == kind
            &&& is_stored(w, v, op.address@, k, w.compressed)
            &&& forall|b: Seq<u8>, l: Kind|
                b.len() == 64 && b != op.address@ ==> #[trigger] v.same_entry(w, b, l)
        },
    }
}

proof fn lemma_source_is_never_torn(
    op: StoreAt,
    kind: Kind,
    w: World,
    v: World,
    outcomes: Seq<Outcome>,
)
    requires
        stored_kind(w.source) == Some(kind),
        is_source_on_course(op, kind, w, v),
    ensures
        ({
            let (u, r) = suffer(op, v, outcomes);
            &&& is_untorn(w, u, op.address@, kind, w.compressed)
            &&& r matches Some(Ok(_)) ==> {
                &&& is_stored(w, u, op.address@, kind, w.compressed)
                &&& !u.has(op.address@, kind.other_kind())
            }
        }),
    decreases outcomes.len(),
{
    broadcast use crate::address::lemma_address_length;

    let a = op.address@;
    let k = kind;
    assert(v.same_entries(w) ==> v.same_entry(w, a, k) && v.same_entry(w, a, k.other_kind()));
    if outcomes.len() > 0 {
        let (x, reply) = v.endure(op.asks(), outcomes[0]);
        match op.stage {
            StoreAtStage::MakeDirs => {},
            StoreAtStage::Probe => {},
            StoreAtStage::Write(_) | StoreAtStage::RemoveTemp { .. } => {
                lemma_temp_leaves_entries(v, x, a, k, op.pid, op.seq);
                lemma_same_entries_transitive(w, v, x);
            },
            StoreAtStage::Rename(_) => {
                if reply is Done {
                    lemma_renamed(v, x, a, k, op.pid, op.seq);
                    assert forall|b: Seq<u8>, l: Kind|
                        b.len() == 64 && b != a implies #[trigger] x.same_entry(w, b, l) by {
                        assert(x.same_entry(v, b, l) && v.same_entry(w, b, l));
                    }
                }
            },
            StoreAtStage::RemoveOther(_) => {
                if !(outcomes[0] matches Outcome::Fails { error, .. } && can_fail(
                    op.asks(),
                    error,
                )) {
                    lemma_other_removed(v, x, a, k);
                    assert forall|b: Seq<u8>, l: Kind|
                        b.len() == 64 && b != a implies #[trigger] x.same_entry(w, b, l) by {
                        assert(x.same_entry(v, b, l) && v.same_entry(w, b, l));
                    }
                }
            },
        }
        assert(x.same_entries(w) ==> x.same_entry(w, a, k) && x.same_entry(w, a, k.other_kind()));
        if let Step::Perform(n) = op.after(reply) {
            lemma_source_is_never_torn(n, kind, w, x, outcomes.drop_first());
        }
    }
}

/// A store from a source path is never torn: whatever fails and wherever it is stopped, the
/// entries are as they were, but that all of the compressed source may stand at its address.
/// It succeeds only if that does, and nothing of the other kind.
pub proof fn law_store_at_is_never_torn(
    address: Address,
    source: String,
    kind: Kind,
    pid: u32,
    seq: u64,
    w: World,
    outcomes: Seq<Outcome>,
)
    requires
        stored_kind(w.source) == Some(kind),
    ensures
        ({
            let op = StoreAt { address, source, pid, seq, stage: StoreAtStage::MakeDirs };
            let (v, r) = suffer(op, w, outcomes);
            &&& is_untorn(w, v, address@, kind, w.compressed)
            &&& r matches Some(Ok(_)) ==> {
                &&& is_stored(w, v, address@, kind, w.compressed)
                &&& !v.has(address@, kind.other_kind())
            }
        }),
{
    let op = StoreAt { address, source, pid, seq, stage: StoreAtStage::MakeDirs };
    lemma_source_is_never_torn(op, kind, w, w, outcomes);
}

/// A store from a source path whose write or rename fails, as when the source cannot be read
/// to its end: whatever the removal of the temporary file comes to, the result is the error,
/// and every entry of either kind, at its own and every other address, is as before. If the
/// removal works, nothing stays of the write.
pub proof fn law_failed_store_at_changes_nothing(
    address: Address,
    source: String,
    kind: Kind,
    pid: u32,
    seq: u64,
    w: World,
    outcomes: Seq<Outcome>,
    at: int,
    error: IoError,
)
    requires
        stored_kind(w.source) == Some(kind),
        !w.files.contains_key(lager::temp_components(address@, kind, pid, seq)),
        at == 2 || at == 3,
        outcomes.len() > at + 1,
        forall|i: int| 0 <= i < at ==> #[trigger] outcomes[i] is Works,
        outcomes[at] matches Outcome::Fails { error: e, .. } && e == error,
    ensures
        ({
            let op = StoreAt { address, source, pid, seq, stage: StoreAtStage::MakeDirs };
            let (v, r) = suffer(op, w, outcomes);
            &&& r == Some(Err::<(), Error>(Error::Io(error)))
            &&& v.same_entries(w)
            &&& outcomes[at + 1] is Works ==> v.files == w.files
        }),
{
    broadcast use crate::address::lemma_address_length;

    reveal_with_fuel(suffer, 6);
    let op = StoreAt { address, source, pid, seq, stage: StoreAtStage::MakeDirs };
    let (v, r) = suffer(op, w, outcomes);
    let rest = outcomes.drop_first().drop_first().drop_first();
    assert(outcomes.drop_first()[0] == outcomes[1]);
    assert(outcomes.drop_first().drop_first()[0] == outcomes[2]);
    assert(rest[0] == outcomes[3]);
    if at == 3 {
        assert(rest.drop_first()[0] == outcomes[4]);
    }
    lemma_temp_leaves_entries(w, v, address@, kind, pid, seq);
    if outcomes[at + 1] is Works {
        assert(v.files =~= w.files);
    }
}

/// A store of what is neither a file nor a directory leaves every file as it is, whatever
/// fails and wherever it is stopped.
pub proof fn law_refused_source_changes_nothing(
    address: Address,
    source: String,
    pid: u32,
    seq: u64,
    w: World,
    outcomes: Seq<Outcome>,
)
    requires
        stored_kind(w.source) is None,
    ensures
        ({
            let op = StoreAt { address, source, pid, seq, stage: StoreAtStage::MakeDirs };
            let (v, r) = suffer(op, w, outcomes);
            v.files == w.files && !(r matches Some(Ok(_)))
        }),
{
    reveal_with_fuel(suffer, 4);
}

} // verus!
