//! Stores that run at the same time.
//!
//! Writers, of blobs and of source paths, take turns on one file system, one request at a
//! time, in any order.

use crate::address::Address;
use crate::error::Error;
use crate::lager;
use crate::lager::Kind;
use crate::model;
use crate::model::World;
use crate::operations::{
    OpenRaw, Retrieve, SourceKind, Step, StoreAt, StoreAtStage, StoreRaw, StoreRawStage,
};
use vstd::prelude::*;

verus! {

/// A store of either form.
pub enum StoreOp {
    Raw(StoreRaw),
    Source(StoreAt),
}

/// How far a store of either form is.
pub enum Phase {
    MakeDirs,
    Probe,
    Write,
    Rename,
    RemoveTemp,
    RemoveOther,
}

/// A store with the kind and the compressed bytes of what it stores, and its result once it
/// has ended.
pub struct Writer {
    pub op: StoreOp,
    pub kind: Kind,
    pub blob: Seq<u8>,
    pub ended: Option<Result<(), Error>>,
}

impl Writer {
    pub open spec fn address(self) -> Address {
        match self.op {
            StoreOp::Raw(op) => op.address,
            StoreOp::Source(op) => op.address,
        }
    }

    pub open spec fn pid(self) -> u32 {
        match self.op {
            StoreOp::Raw(op) => op.pid,
            StoreOp::Source(op) => op.pid,
        }
    }

    pub open spec fn seq(self) -> u64 {
        match self.op {
            StoreOp::Raw(op) => op.seq,
            StoreOp::Source(op) => op.seq,
        }
    }

    pub open spec fn phase(self) -> Phase {
        match self.op {
            StoreOp::Raw(op) => match op.stage {
                StoreRawStage::MakeDirs => Phase::MakeDirs,
                StoreRawStage::Probe => Phase::Probe,
                StoreRawStage::Write { .. } => Phase::Write,
                StoreRawStage::Rename { .. } => Phase::Rename,
                StoreRawStage::RemoveTemp { .. } => Phase::RemoveTemp,
                StoreRawStage::RemoveOther { .. } => Phase::RemoveOther,
            },
            StoreOp::Source(op) => match op.stage {
                StoreAtStage::MakeDirs => Phase::MakeDirs,
                StoreAtStage::Probe => Phase::Probe,
                StoreAtStage::Write(_) => Phase::Write,
                StoreAtStage::Rename(_) => Phase::Rename,
                StoreAtStage::RemoveTemp { .. } => Phase::RemoveTemp,
                StoreAtStage::RemoveOther(_) => Phase::RemoveOther,
            },
        }
    }

    /// Whether the store, as far as it is, knows of this kind alone.
    pub open spec fn is_of_kind(self) -> bool {
        match self.op {
            StoreOp::Raw(op) => op.kind == self.kind,
            StoreOp::Source(op) => match op.stage {
                StoreAtStage::MakeDirs | StoreAtStage::Probe => true,
                StoreAtStage::Write(kind)
                | StoreAtStage::Rename(kind)
                | StoreAtStage::RemoveTemp { kind, .. }
                | StoreAtStage::RemoveOther(kind) => kind == self.kind,
            },
        }
    }

    /// The path of the temporary file.
    pub open spec fn temp(self) -> Seq<Seq<char>> {
        lager::temp_components(self.address()@, self.kind, self.pid(), self.seq())
    }

    /// The path of the entry.
    pub open spec fn dest(self) -> Seq<Seq<char>> {
        lager::entry_components(self.address()@, self.kind)
    }

    /// The path of the entry of the other kind.
    pub open spec fn other(self) -> Seq<Seq<char>> {
        lager::entry_components(self.address()@, self.kind.other_kind())
    }

    /// Whether this is another moment of the same store.
    pub open spec fn is_same(self, w: Writer) -> bool {
        &&& self.address() == w.address()
        &&& self.pid() == w.pid()
        &&& self.seq() == w.seq()
        &&& self.kind == w.kind
        &&& self.blob == w.blob
    }

    /// Whether the store stands at its beginning.
    pub open spec fn is_fresh(self) -> bool {
        self.phase() is MakeDirs && self.is_of_kind() && self.ended is None
    }

    /// Whether the blob was moved into place.
    pub open spec fn has_renamed(self) -> bool {
        self.phase() is RemoveOther || self.ended is Some
    }

    /// Bounds how many turns are still to come.
    pub open spec fn turns_left(self) -> int {
        if self.ended is Some {
            0
        } else {
            match self.phase() {
                Phase::MakeDirs => 5,
                Phase::Probe => 4,
                Phase::Write => 3,
                Phase::Rename => 2,
                _ => 1,
            }
        }
    }

    /// The file system as this store sees it: what comes in, or stands at its source path, is
    /// its own.
    pub open spec fn sees(self, w: World) -> World {
        World {
            incoming: self.blob,
            compressed: self.blob,
            source: match self.kind {
                Kind::File => SourceKind::File,
                Kind::Dir => SourceKind::Dir,
            },
            ..w
        }
    }
}

/// Whether two stores can run at the same time: they write different temporary files, and
/// if they store at one address, they store one kind.
pub open spec fn are_compatible(x: Writer, y: Writer) -> bool {
    &&& x.pid() != y.pid() || x.seq() != y.seq()
    &&& x.address()@ == y.address()@ ==> x.kind == y.kind
}

/// Writers at their beginning that can run at the same time.
pub open spec fn can_begin(writers: Seq<Writer>, w: World) -> bool {
    &&& forall|i: int| 0 <= i < writers.len() ==> (#[trigger] writers[i]).is_fresh()
    &&& forall|i: int|
        0 <= i < writers.len() ==> !w.files.contains_key((#[trigger] writers[i]).temp())
    &&& forall|i: int, j: int|
        0 <= i < writers.len() && 0 <= j < writers.len() && i != j ==> are_compatible(
            #[trigger] writers[i],
            #[trigger] writers[j],
        )
}

/// The next request of a writer.
#[verifier::opaque]
pub open spec fn moved(x: Writer, w: World) -> (Writer, World) {
    match x.op {
        StoreOp::Raw(op) => {
            let (v, reply) = x.sees(w).serve(op.asks());
            match op.after(reply) {
                Step::Perform(next) => (Writer { op: StoreOp::Raw(next), ..x }, v),
                Step::Finished(Ok(_)) => (Writer { ended: Some(Ok(())), ..x }, v),
                Step::Finished(Err(e)) => (Writer { ended: Some(Err(e)), ..x }, v),
            }
        },
        StoreOp::Source(op) => {
            let (v, reply) = x.sees(w).serve(op.asks());
            match op.after(reply) {
                Step::Perform(next) => (Writer { op: StoreOp::Source(next), ..x }, v),
                Step::Finished(r) => (Writer { ended: Some(r), ..x }, v),
            }
        },
    }
}

/// One turn: the next request of a writer, if it has not ended.
pub open spec fn turn(writers: Seq<Writer>, w: World, i: int) -> (Seq<Writer>, World) {
    if 0 <= i < writers.len() && writers[i].ended is None {
        let (x, v) = moved(writers[i], w);
        (writers.update(i, x), v)
    } else {
        (writers, w)
    }
}

/// Turns in some order.
pub open spec fn take_turns(writers: Seq<Writer>, w: World, order: Seq<int>) -> (
    Seq<Writer>,
    World,
)
    decreases order.len(),
{
    if order.len() == 0 {
        (writers, w)
    } else {
        let (xs, v) = take_turns(writers, w, order.drop_last());
        turn(xs, v, order.last())
    }
}

/// How many of some turns are those of a writer.
pub open spec fn count_turns(order: Seq<int>, i: int) -> nat
    decreases order.len(),
{
    if order.len() == 0 {
        0
    } else {
        count_turns(order.drop_last(), i) + if order.last() == i {
            1nat
        } else {
            0
        }
    }
}

/// Whether the blob of one of the writers of an entry stands there, whole.
pub open spec fn stands(writers: Seq<Writer>, w: World, i: int) -> bool {
    &&& w.files.contains_key(writers[i].dest())
    &&& exists|j: int|
        0 <= j < writers.len() && (#[trigger] writers[j]).dest() == writers[i].dest()
            && writers[j].has_renamed() && w.files[writers[i].dest()].content == writers[j].blob
}

/// Whether a path is one that a writer writes to or removes.
pub open spec fn is_used(x: Writer, path: Seq<Seq<char>>) -> bool {
    path == x.temp() || path == x.dest() || path == x.other()
}

/// Where a writer and its temporary file stand.
pub open spec fn is_on_course(x: Writer, w: World) -> bool {
    &&& x.is_of_kind()
    &&& !(x.phase() is RemoveTemp)
    &&& w.files.contains_key(x.temp()) <==> x.phase() is Rename && x.ended is None
    &&& x.phase() is Rename && x.ended is None ==> w.files[x.temp()].content == x.blob
    &&& x.ended matches Some(r) ==> r is Ok && x.phase() is RemoveOther && !w.files.contains_key(
        x.other(),
    )
}

/// Whether a file is as in another world.
pub open spec fn is_file_same(w: World, v: World, path: Seq<Seq<char>>) -> bool {
    &&& v.files.contains_key(path) == w.files.contains_key(path)
    &&& w.files.contains_key(path) ==> v.files[path] == w.files[path]
}

/// Whether no writer writes to or removes a path.
pub open spec fn is_unused(writers: Seq<Writer>, path: Seq<Seq<char>>) -> bool {
    forall|i: int| 0 <= i < writers.len() ==> !is_used(#[trigger] writers[i], path)
}

/// Whether no writer writes a temporary file at a path.
pub open spec fn is_no_temp(writers: Seq<Writer>, path: Seq<Seq<char>>) -> bool {
    forall|i: int| 0 <= i < writers.len() ==> path != (#[trigger] writers[i]).temp()
}

/// Whether what stands at a path, if anything, is what stood there at the start or the whole
/// blob of one of its writers.
pub open spec fn is_whole(
    writers: Seq<Writer>,
    start: World,
    w: World,
    path: Seq<Seq<char>>,
) -> bool {
    w.files.contains_key(path) ==> {
        ||| is_file_same(start, w, path)
        ||| exists|i: int|
            0 <= i < writers.len() && (#[trigger] writers[i]).dest() == path
                && w.files[path].content == writers[i].blob
    }
}

/// What holds between turns.
pub open spec fn is_in_order(begun: Seq<Writer>, start: World, xs: Seq<Writer>, w: World) -> bool {
    &&& xs.len() == begun.len()
    &&& forall|i: int| 0 <= i < xs.len() ==> (#[trigger] xs[i]).is_same(begun[i])
    &&& forall|i: int| 0 <= i < xs.len() ==> is_on_course(#[trigger] xs[i], w)
    &&& forall|i: int| 0 <= i < xs.len() && (#[trigger] xs[i]).has_renamed() ==> stands(xs, w, i)
    &&& forall|path: Seq<Seq<char>>| #[trigger]
        is_unused(begun, path) ==> is_file_same(start, w, path)
    &&& forall|path: Seq<Seq<char>>| #[trigger]
        is_no_temp(begun, path) ==> is_whole(begun, start, w, path)
}

/// The paths of two writers do not get in each other's way.
proof fn lemma_paths(x: Writer, y: Writer, distinct: bool)
    requires
        distinct ==> are_compatible(x, y),
        !distinct ==> x.is_same(y),
    ensures
        x.temp() != y.dest(),
        x.temp() != y.other(),
        distinct ==> x.temp() != y.temp(),
        x.other() != y.dest(),
{
    broadcast use crate::address::lemma_address_length;

    let a = x.address()@;
    let b = y.address()@;
    model::law_temp_is_no_entry(a, x.kind, x.pid(), x.seq(), b, y.kind);
    model::law_temp_is_no_entry(a, x.kind, x.pid(), x.seq(), b, y.kind.other_kind());
    if x.temp() == y.temp() {
        model::law_temp_is_unique(
            a,
            x.kind,
            x.pid(),
            x.seq(),
            b,
            y.kind,
            y.pid(),
            y.seq(),
        );
    }
    if x.other() == y.dest() {
        model::law_entry_paths_are_distinct(a, x.kind.other_kind(), b, y.kind);
    }
}

/// What one request of a writer does.
proof fn lemma_moved(x: Writer, w: World)
    requires
        x.ended is None,
        is_on_course(x, w),
    ensures
        ({
            let (y, v) = moved(x, w);
            &&& y.is_same(x)
            &&& is_on_course(y, v)
            &&& y.has_renamed() == (x.has_renamed() || x.phase() is Rename)
            &&& y.turns_left() < x.turns_left()
            &&& v.files.contains_key(x.other()) ==> is_file_same(w, v, x.other())
            &&& if x.phase() is Rename {
                v.files.contains_key(x.dest()) && v.files[x.dest()].content == x.blob
            } else {
                is_file_same(w, v, x.dest())
            }
            &&& forall|path: Seq<Seq<char>>| !is_used(x, path) ==> #[trigger] is_file_same(
                w,
                v,
                path,
            )
        }),
{
    reveal(moved);
    lemma_paths(x, x, false);
}

proof fn lemma_others_keep_course(x: Writer, z: Writer, w: World)
    requires
        x.ended is None,
        is_on_course(x, w),
        is_on_course(z, w),
        are_compatible(x, z),
        are_compatible(z, x),
    ensures
        is_on_course(z, moved(x, w).1),
        z.dest() != x.dest() || !(x.phase() is Rename) ==> is_file_same(
            w,
            moved(x, w).1,
            z.dest(),
        ),
{
    lemma_moved(x, w);
    lemma_paths(x, z, true);
    lemma_paths(z, x, true);
    let v = moved(x, w).1;
    assert(is_file_same(w, v, z.temp()));
    if z.other() != x.other() {
        assert(!is_used(x, z.other()));
        assert(is_file_same(w, v, z.other()));
    }
    if z.dest() != x.dest() {
        assert(is_file_same(w, v, z.dest()));
    }
}

proof fn lemma_turn(begun: Seq<Writer>, start: World, xs: Seq<Writer>, w: World, i: int)
    requires
        can_begin(begun, start),
        is_in_order(begun, start, xs, w),
    ensures
        is_in_order(begun, start, turn(xs, w, i).0, turn(xs, w, i).1),
{
    if 0 <= i < xs.len() && xs[i].ended is None {
        let x = xs[i];
        let (ys, v) = turn(xs, w, i);
        assert(x.is_same(begun[i]) && is_on_course(x, w));
        lemma_moved(x, w);
        assert forall|j: int| 0 <= j < ys.len() implies (#[trigger] ys[j]).is_same(begun[j])
            && is_on_course(ys[j], v) && (j != i ==> ys[j] == xs[j]) && (xs[j].has_renamed()
            ==> ys[j].has_renamed()) && (xs[j].dest() != x.dest() || !(x.phase() is Rename)
            ==> is_file_same(w, v, xs[j].dest())) by {
            assert(xs[j].is_same(begun[j]) && is_on_course(xs[j], w));
            if j != i {
                assert(are_compatible(begun[i], begun[j]));
                assert(are_compatible(begun[j], begun[i]));
                lemma_others_keep_course(x, xs[j], w);
            }
        }
        assert forall|j: int| 0 <= j < ys.len() && (#[trigger] ys[j]).has_renamed() implies stands(
            ys,
            v,
            j,
        ) by {
            let dest = ys[j].dest();
            assert(xs[j].is_same(begun[j]));
            if x.phase() is Rename && dest == x.dest() {
                assert(ys[i].is_same(begun[i]) && ys[i].has_renamed());
                assert(ys[i].dest() == dest);
            } else {
                assert(xs[j].has_renamed());
                assert(stands(xs, w, j));
                let k = choose|k: int|
                    0 <= k < xs.len() && (#[trigger] xs[k]).dest() == dest
                        && xs[k].has_renamed() && w.files[dest].content == xs[k].blob;
                assert(xs[k].is_same(begun[k]) && ys[k].is_same(begun[k]));
                assert(ys[k].dest() == dest && ys[k].has_renamed());
            }
        }
        assert forall|path: Seq<Seq<char>>| #[trigger] is_unused(begun, path) implies is_file_same(
            start,
            v,
            path,
        ) by {
            assert(!is_used(begun[i], path));
            assert(!is_used(x, path));
            assert(is_file_same(start, w, path));
            assert(is_file_same(w, v, path));
        }
        assert forall|path: Seq<Seq<char>>| #[trigger] is_no_temp(begun, path) implies is_whole(
            begun,
            start,
            v,
            path,
        ) by {
            assert(is_whole(begun, start, w, path));
            assert(path != begun[i].temp());
            if path == x.dest() && x.phase() is Rename {
                assert(begun[i].dest() == path);
            } else if v.files.contains_key(path) {
                assert(is_file_same(w, v, path));
                if !is_file_same(start, w, path) {
                    let j = choose|j: int|
                        0 <= j < begun.len() && (#[trigger] begun[j]).dest() == path
                            && w.files[path].content == begun[j].blob;
                    assert(begun[j].dest() == path);
                }
            }
        }
    }
}

proof fn lemma_turns(begun: Seq<Writer>, start: World, order: Seq<int>)
    requires
        can_begin(begun, start),
    ensures
        is_in_order(
            begun,
            start,
            take_turns(begun, start, order).0,
            take_turns(begun, start, order).1,
        ),
        forall|i: int|
            0 <= i < begun.len() ==> {
                let left = (#[trigger] take_turns(begun, start, order).0[i]).turns_left();
                left == 0 || left + count_turns(order, i) <= 5
            },
    decreases order.len(),
{
    if order.len() > 0 {
        let init = order.drop_last();
        lemma_turns(begun, start, init);
        let (xs, v) = take_turns(begun, start, init);
        let (ys, u) = take_turns(begun, start, order);
        lemma_turn(begun, start, xs, v, order.last());
        assert forall|i: int| 0 <= i < begun.len() implies {
            let left = (#[trigger] ys[i]).turns_left();
            left == 0 || left + count_turns(order, i) <= 5
        } by {
            let left = xs[i].turns_left();
            assert(left == 0 || left + count_turns(init, i) <= 5);
            assert(is_on_course(xs[i], v));
            if i == order.last() && xs[i].ended is None {
                lemma_moved(xs[i], v);
            }
        }
    }
}

/// Stores that run at the same time do not collide, whatever the order of their steps:
/// each that has ended has succeeded. An entry that was stored by some of them holds the
/// whole blob of one of them, and nothing of the other kind stands beside it. A temporary
/// file stays only while its store runs, and no other file changes.
pub proof fn law_concurrent_stores_do_not_collide(
    writers: Seq<Writer>,
    w: World,
    order: Seq<int>,
)
    requires
        can_begin(writers, w),
    ensures
        ({
            let (xs, v) = take_turns(writers, w, order);
            &&& xs.len() == writers.len()
            &&& forall|i: int| 0 <= i < xs.len() ==> (#[trigger] xs[i]).is_same(writers[i])
            &&& forall|i: int|
                0 <= i < xs.len() ==> ((#[trigger] xs[i]).ended matches Some(r) ==> {
                    &&& r is Ok
                    &&& stands(xs, v, i)
                    &&& !v.files.contains_key(xs[i].other())
                    &&& !v.files.contains_key(xs[i].temp())
                })
            &&& forall|path: Seq<Seq<char>>| #[trigger]
                is_unused(writers, path) ==> is_file_same(w, v, path)
        }),
{
    lemma_turns(writers, w, order);
    let (xs, v) = take_turns(writers, w, order);
    assert forall|i: int| 0 <= i < xs.len() implies ((#[trigger] xs[i]).ended matches Some(r) ==> {
        &&& r is Ok
        &&& stands(xs, v, i)
        &&& !v.files.contains_key(xs[i].other())
        &&& !v.files.contains_key(xs[i].temp())
    }) by {
        assert(is_on_course(xs[i], v));
        if xs[i].ended is Some {
            assert(xs[i].has_renamed());
        }
    }
}

/// Whoever retrieves an address while stores run gets a whole blob, whatever the order of
/// their steps: what stood at the address before, or what one of them stores there.
pub proof fn law_readers_see_whole_blobs(
    writers: Seq<Writer>,
    w: World,
    order: Seq<int>,
    address: Address,
)
    requires
        can_begin(writers, w),
    ensures
        ({
            let v = take_turns(writers, w, order).1;
            let open = OpenRaw { address, kind: Kind::File, opened: false };
            let (u, r) = model::run(Retrieve::Opening(open), v);
            r is Ok ==> exists|k: Kind|
                {
                    &&& #[trigger] v.has(address@, k)
                    &&& u.extracted == Some((k, v.entry(address@, k).content))
                    &&& {
                        ||| w.has(address@, k) && v.entry(address@, k) == w.entry(address@, k)
                        ||| exists|i: int|
                            {
                                &&& 0 <= i < writers.len()
                                &&& (#[trigger] writers[i]).address()@ == address@
                                &&& writers[i].kind == k
                                &&& v.entry(address@, k).content == writers[i].blob
                            }
                    }
                }
        }),
{
    broadcast use crate::address::lemma_address_length;

    lemma_turns(writers, w, order);
    let v = take_turns(writers, w, order).1;
    model::law_retrieve(address, v);
    let k = if v.has(address@, Kind::File) {
        Kind::File
    } else {
        Kind::Dir
    };
    let path = lager::entry_components(address@, k);
    assert(is_no_temp(writers, path)) by {
        assert forall|i: int| 0 <= i < writers.len() implies path != (
        #[trigger] writers[i]).temp() by {
            let x = writers[i];
            model::law_temp_is_no_entry(x.address()@, x.kind, x.pid(), x.seq(), address@, k);
        }
    }
    assert(is_whole(writers, w, v, path));
    if v.has(address@, k) && !is_file_same(w, v, path) {
        let i = choose|i: int|
            0 <= i < writers.len() && (#[trigger] writers[i]).dest() == path
                && v.files[path].content == writers[i].blob;
        model::law_entry_paths_are_distinct(writers[i].address()@, writers[i].kind, address@, k);
    }
}

/// A store ends after five turns, whatever the others do.
pub proof fn law_concurrent_stores_end(
    writers: Seq<Writer>,
    w: World,
    order: Seq<int>,
    i: int,
)
    requires
        can_begin(writers, w),
        0 <= i < writers.len(),
        count_turns(order, i) >= 5,
    ensures
        take_turns(writers, w, order).0[i].ended is Some,
{
    lemma_turns(writers, w, order);
    let xs = take_turns(writers, w, order).0;
    assert(xs[i].turns_left() == 0 || xs[i].turns_left() + count_turns(order, i) <= 5);
    assert(is_on_course(xs[i], take_turns(writers, w, order).1));
}

/// Two stores of one address and kind that run at the same time: once both have had
/// their turns, in whatever order, both have succeeded, one of the two blobs stands at the
/// address, whole, and no temporary file stays.
pub proof fn law_two_stores_leave_one_blob(x: Writer, y: Writer, w: World, order: Seq<int>)
    requires
        x.address() == y.address(),
        x.kind == y.kind,
        x.pid() != y.pid() || x.seq() != y.seq(),
        can_begin(seq![x, y], w),
        count_turns(order, 0) >= 5,
        count_turns(order, 1) >= 5,
    ensures
        ({
            let (xs, v) = take_turns(seq![x, y], w, order);
            let a = x.address()@;
            let k = x.kind;
            &&& xs[0].ended matches Some(r) && r is Ok
            &&& xs[1].ended matches Some(r) && r is Ok
            &&& v.has(a, k) && !v.has(a, k.other_kind())
            &&& v.entry(a, k).content == x.blob || v.entry(a, k).content == y.blob
            &&& !v.files.contains_key(x.temp())
            &&& !v.files.contains_key(y.temp())
        }),
{
    let both = seq![x, y];
    law_concurrent_stores_do_not_collide(both, w, order);
    law_concurrent_stores_end(both, w, order, 0);
    law_concurrent_stores_end(both, w, order, 1);
    let (xs, v) = take_turns(both, w, order);
    assert(xs[0].is_same(both[0]) && xs[1].is_same(both[1]));
    assert(stands(xs, v, 0));
}

} // verus!
