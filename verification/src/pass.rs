//! What a scan and an eviction pass do as a whole.

use crate::address;
use crate::error::{Error, IoError};
use crate::lager;
use crate::lager::{Kind, Lager};
use crate::lru;
use crate::lru::{EvictStep, Evicted, Item, Listed};
use crate::model;
use crate::model::World;
use crate::text;
use vstd::prelude::*;

verus! {

/// A temporary file is never taken for an entry.
pub proof fn law_temp_files_are_passed_over(a: Seq<u8>, k: Kind, pid: u32, seq: u64)
    requires
        a.len() == 64,
    ensures
        lru::is_temp_name(lager::temp_components(a, k, pid, seq)[2]),
        forall|listed: Listed|
            (#[trigger] listed.name)@ == lager::temp_components(a, k, pid, seq)[2]
                ==> !listed.is_counted(),
{
    reveal_strlit(".tmp");
    let name = lager::temp_components(a, k, pid, seq)[2];
    let n = (128 + k.suffix().len()) as int;
    assert(name == address::hex_encoding(a) + k.suffix() + lager::temp_suffix(pid, seq));
    assert(name.subrange(n, n + 4) =~= lager::TEMP_SUFFIX@);
    assert(text::stands_at(name, n, lager::TEMP_SUFFIX@));
}

/// An entry is counted by a scan, under its own address, with its size and the time
/// of its last use.
pub proof fn law_entries_are_counted(listed: Listed, a: Seq<u8>, k: Kind)
    requires
        a.len() == 64,
        listed.is_file,
        listed.name@ == lager::entry_components(a, k)[2],
    ensures
        listed.is_counted(),
        listed.is_sound() <==> listed.modified is Ok,
        listed.item().address == a,
        listed.item().size == listed.len,
        listed.modified matches Ok(m) ==> listed.item().modified == m,
{
    reveal_strlit(".");
    reveal_strlit("zst");
    reveal_strlit("tar.zst");
    reveal_strlit(".tmp");
    let name = listed.name@;
    let hex = address::hex_encoding(a);
    let tmp = lager::TEMP_SUFFIX@;
    assert(name == hex + k.suffix());
    assert forall|i: int| 0 <= i < 128 implies #[trigger] name[i] != '.' by {
        assert(name[i] == hex[i]);
    }
    assert(name[128] == '.');
    assert forall|i: int| !text::stands_at(name, i, tmp) by {
        if text::stands_at(name, i, tmp) {
            let part = name.subrange(i, i + 4);
            assert(part[0] == '.' && part[1] == 't' && part[2] == 'm' && part[3] == 'p');
            assert(name[i] == '.' && name[i + 1] == 't' && name[i + 2] == 'm');
            assert(i >= 128);
            if k == Kind::File {
                assert(name.len() == 132);
                assert(name[129] == 'z');
            } else {
                assert(name.len() == 136);
                assert(name[130] == 'a');
                assert(name[132] == '.' && name[133] == 'z');
            }
        }
    }
    assert(name.take(128) =~= hex);
    text::lemma_up_to(name, '.', 128);
    address::law_hex_round_trip(a);
}

/// A scan reports a temporary file for removal only once it is older than the age at
/// which it counts as abandoned; one that seems to come from the future is kept.
pub proof fn law_fresh_temp_files_are_kept(listed: Listed, now: i128, modified: i128)
    requires
        listed.modified == Ok::<i128, IoError>(modified),
        now - modified <= lru::STALE_TEMP_AGE,
    ensures
        !listed.is_stale(now),
{
}

/// The place of the oldest item.
pub open spec fn oldest(items: Seq<Item>) -> int {
    choose|i: int| lru::is_oldest(items, i)
}

/// Of some items one is the oldest.
pub proof fn lemma_oldest(items: Seq<Item>)
    requires
        items.len() > 0,
    ensures
        lru::is_oldest(items, oldest(items)),
        forall|i: int| lru::is_oldest(items, i) ==> i == oldest(items),
    decreases items.len(),
{
    let n = items.len() - 1;
    if n == 0 {
        assert(lru::is_oldest(items, 0));
    } else {
        let init = items.drop_last();
        lemma_oldest(init);
        let i = oldest(init);
        if items[n].modified < items[i].modified {
            assert forall|j: int| 0 <= j < items.len() implies items[n].modified <= (
            #[trigger] items[j]).modified by {
                if j < n {
                    assert(init[j] == items[j]);
                }
            }
            assert forall|j: int| 0 <= j < n implies items[n].modified < (
            #[trigger] items[j]).modified by {
                assert(init[j] == items[j]);
            }
            assert(lru::is_oldest(items, n));
        } else {
            assert forall|j: int| 0 <= j < items.len() implies items[i].modified <= (
            #[trigger] items[j]).modified by {
                if j < n {
                    assert(init[j] == items[j]);
                }
            }
            assert forall|j: int| 0 <= j < i implies items[i].modified < (
            #[trigger] items[j]).modified by {
                assert(init[j] == items[j]);
            }
            assert(lru::is_oldest(items, i));
        }
    }
    let o = oldest(items);
    assert forall|i: int| lru::is_oldest(items, i) implies i == o by {
        assert(items[i].modified == items[o].modified);
    }
}

/// Where an eviction stands: the items to consider, the size of the store, what was
/// removed, and the file system.
pub struct Pass {
    pub items: Seq<Item>,
    pub size: int,
    pub removed: Seq<Evicted>,
    pub world: World,
}

impl Pass {
    /// Where the eviction stands once the item at a place was considered: it is
    /// removed unless it was used since the scan.
    pub open spec fn consider(self, i: int) -> Pass {
        let item = self.items[i];
        let (world, r) = model::run(lru::removal_of(item), self.world);
        let rest = self.items.remove(i);
        if r == Ok::<bool, Error>(true) {
            Pass {
                items: rest,
                size: self.size - item.size,
                removed: self.removed.push(lru::evicted(item)),
                world,
            }
        } else {
            Pass { items: rest, size: self.size, removed: self.removed, world }
        }
    }
}

/// The whole of an eviction.
pub open spec fn evict(p: Pass, target: int) -> Pass
    decreases p.items.len(),
{
    if p.size <= target || p.items.len() == 0 {
        p
    } else {
        proof {
            lemma_oldest(p.items);
        }
        evict(p.consider(oldest(p.items)), target)
    }
}

/// The steps of an eviction make up the whole: it is over when there is no further
/// step, and otherwise goes on from where the candidate was considered.
pub proof fn law_steps_make_the_pass<R>(
    step: EvictStep<R>,
    items: Seq<Item>,
    size: u64,
    lager: Lager<R>,
    target: u64,
    removed: Seq<Evicted>,
    world: World,
)
    requires
        step.is_next(items, size, lager, target, removed),
    ensures
        ({
            let p = Pass { items, size: size as int, removed, world };
            match step {
                EvictStep::Done { .. } => evict(p, target as int) == p,
                EvictStep::Remove(e) => {
                    let (v, r) = model::run(lru::removal_of(e.candidate()), world);
                    let gone = r == Ok::<bool, Error>(true);
                    let q = Pass {
                        items: e.items(),
                        size: if gone {
                            size - e.candidate().size
                        } else {
                            size as int
                        },
                        removed: if gone {
                            removed.push(lru::evicted(e.candidate()))
                        } else {
                            removed
                        },
                        world: v,
                    };
                    r is Ok && evict(p, target as int) == evict(q, target as int)
                },
            }
        }),
{
    if items.len() > 0 {
        lemma_oldest(items);
    }
    if let EvictStep::Remove(e) = step {
        model::law_remove_if_unused_since(e.candidate().address, e.candidate().modified, world);
        let p = Pass { items, size: size as int, removed, world };
        assert(e.candidate() == items[oldest(items)]);
        assert(evict(p, target as int) == evict(p.consider(oldest(items)), target as int));
    }
}

/// The bytes that removed entries took up.
pub open spec fn freed(removed: Seq<Evicted>) -> int
    decreases removed.len(),
{
    if removed.len() == 0 {
        0
    } else {
        freed(removed.drop_last()) + removed.last().size
    }
}

/// What a pass keeps and changes, whatever was used meanwhile.
pub open spec fn is_sound_pass(p: Pass, target: int, q: Pass) -> bool {
    let n = p.removed.len() as int;
    &&& p.size <= target ==> q == p
    // What is removed is taken off the size, and nothing else is.
    &&& q.size + freed(q.removed) == p.size + freed(p.removed)
    // It ends at the target or when nothing is left to consider, and not later.
    &&& q.size <= target || q.items.len() == 0
    &&& q.removed.len() > n ==> q.size + q.removed.last().size > target
    // What was removed is one of the items, the least recently used first.
    &&& n <= q.removed.len()
    &&& q.removed.take(n) == p.removed
    &&& forall|j: int|
        n <= j < q.removed.len() ==> exists|i: int|
            0 <= i < p.items.len() && #[trigger] q.removed[j] == lru::evicted(#[trigger] p.items[i])
    &&& forall|j: int, l: int|
        n <= j <= l < q.removed.len() ==> (#[trigger] q.removed[j]).last_used <= (
        #[trigger] q.removed[l]).last_used
    &&& forall|j: int, i: int|
        n <= j < q.removed.len() && 0 <= i < q.items.len() ==> (#[trigger] q.removed[j]).last_used
            <= (#[trigger] q.items[i]).modified
    // No file changes but that some are gone: entries that were removed, and that had
    // not been used since the scan.
    &&& q.world.files.submap_of(p.world.files)
    &&& forall|path: Seq<Seq<char>>| #[trigger]
        p.world.files.contains_key(path) && !q.world.files.contains_key(path) ==> exists|
            j: int,
            k: Kind,
        |
            n <= j < q.removed.len() && path == #[trigger] lager::entry_components(
                q.removed[j].address@,
                k,
            ) && p.world.files[path].modified <= q.removed[j].last_used
}

/// An eviction pass: it removes entries, the least recently used first, until the
/// store is at most the target or nothing is left to consider. The size falls by what
/// was removed. Nothing that was used since the scan is removed, and it stays counted.
pub proof fn law_evict_until(p: Pass, target: int)
    ensures
        is_sound_pass(p, target, evict(p, target)),
    decreases p.items.len(),
{
    if p.size <= target || p.items.len() == 0 {
        assert(p.removed.take(p.removed.len() as int) =~= p.removed);
    } else {
        lemma_oldest(p.items);
        let o = oldest(p.items);
        let item = p.items[o];
        let m = p.consider(o);
        let q = evict(p, target);
        let n = p.removed.len() as int;
        model::law_remove_if_unused_since(item.address, item.modified, p.world);
        law_evict_until(m, target);
        assert(q == evict(m, target));
        let gone = m.removed.len() > n;
        if gone {
            assert(m.removed.drop_last() =~= p.removed);
            assert(q.removed.take(n) =~= q.removed.take(n + 1).take(n));
            assert(q.removed[n] == q.removed.take(n + 1)[n]);
            assert(q.removed[n] == lru::evicted(item));
        }
        // Each item that is left comes from before, and is not older than the candidate.
        assert forall|i: int| 0 <= i < m.items.len() implies {
            &&& p.items.contains(#[trigger] m.items[i])
            &&& item.modified <= m.items[i].modified
        } by {
            let h = if i < o {
                i
            } else {
                i + 1
            };
            assert(m.items[i] == p.items[h]);
        }
        assert forall|j: int| n <= j < q.removed.len() implies exists|i: int|
            0 <= i < p.items.len() && #[trigger] q.removed[j] == lru::evicted(
                #[trigger] p.items[i],
            ) by {
            if gone && j == n {
                assert(q.removed[j] == lru::evicted(p.items[o]));
            } else {
                let i = choose|i: int|
                    0 <= i < m.items.len() && q.removed[j] == lru::evicted(#[trigger] m.items[i]);
                let h = if i < o {
                    i
                } else {
                    i + 1
                };
                assert(m.items[i] == p.items[h]);
            }
        }
        lemma_left_items(m, target);
        assert(m.world.files.submap_of(p.world.files));
        assert forall|path: Seq<Seq<char>>| #[trigger]
            q.world.files.contains_key(path) implies p.world.files.contains_key(path)
            && q.world.files[path] == p.world.files[path] by {
            assert(m.world.files.contains_key(path));
        }
        assert forall|j: int, l: int| n <= j <= l < q.removed.len() implies (
        #[trigger] q.removed[j]).last_used <= (#[trigger] q.removed[l]).last_used by {
            if gone && j == n && l > n {
                let i = choose|i: int|
                    0 <= i < m.items.len() && q.removed[l] == lru::evicted(#[trigger] m.items[i]);
                assert(item.modified <= m.items[i].modified);
            }
        }
        assert forall|j: int, i: int|
            n <= j < q.removed.len() && 0 <= i < q.items.len() implies (
        #[trigger] q.removed[j]).last_used <= (#[trigger] q.items[i]).modified by {
            if gone && j == n {
                assert(m.items.contains(q.items[i]));
            }
        }
        assert forall|path: Seq<Seq<char>>| #[trigger]
            p.world.files.contains_key(path) && !q.world.files.contains_key(path) implies exists|
            j: int,
            k: Kind,
        |
            n <= j < q.removed.len() && path == #[trigger] lager::entry_components(
                q.removed[j].address@,
                k,
            ) && p.world.files[path].modified <= q.removed[j].last_used by {
            if !m.world.files.contains_key(path) {
                let k = if p.world.has(item.address@, Kind::File) {
                    Kind::File
                } else {
                    Kind::Dir
                };
                assert(gone && q.removed[n].address == item.address);
                assert(path == lager::entry_components(q.removed[n].address@, k));
            } else {
                assert(m.world.files[path] == p.world.files[path]);
            }
        }
    }
}

/// The items that a pass leaves unconsidered are among those it began with.
proof fn lemma_left_items(p: Pass, target: int)
    ensures
        forall|i: int|
            0 <= i < evict(p, target).items.len() ==> p.items.contains(
                #[trigger] evict(p, target).items[i],
            ),
    decreases p.items.len(),
{
    let q = evict(p, target);
    if p.size > target && p.items.len() > 0 {
        lemma_oldest(p.items);
        let o = oldest(p.items);
        let m = p.consider(o);
        lemma_left_items(m, target);
        assert(q == evict(m, target));
        assert forall|i: int| 0 <= i < q.items.len() implies p.items.contains(
            #[trigger] q.items[i],
        ) by {
            let h = m.items.index_of(q.items[i]);
            assert(m.items.contains(q.items[i]));
            assert(m.items[h] == p.items[if h < o {
                h
            } else {
                h + 1
            }]);
        }
    }
}

/// Nothing that was used since the scan is removed: an entry with a later time than
/// every item of its address stays as it is.
pub proof fn law_used_entries_survive_a_pass(p: Pass, target: int, a: Seq<u8>, k: Kind)
    requires
        a.len() == 64,
        p.world.has(a, k),
        forall|i: int|
            0 <= i < p.items.len() && (#[trigger] p.items[i]).address@ == a ==> p.items[i].modified
                < p.world.entry(a, k).modified,
    ensures
        evict(p, target).world.has(a, k),
        evict(p, target).world.entry(a, k) == p.world.entry(a, k),
{
    broadcast use crate::address::lemma_address_length;

    law_evict_until(p, target);
    let q = evict(p, target);
    let n = p.removed.len() as int;
    let path = lager::entry_components(a, k);
    if !q.world.files.contains_key(path) {
        assert(p.world.files.contains_key(path));
        let (j, l) = choose|j: int, l: Kind|
            n <= j < q.removed.len() && path == #[trigger] lager::entry_components(
                q.removed[j].address@,
                l,
            ) && p.world.files[path].modified <= q.removed[j].last_used;
        model::law_entry_paths_are_distinct(a, k, q.removed[j].address@, l);
        let i = choose|i: int|
            0 <= i < p.items.len() && q.removed[j] == lru::evicted(#[trigger] p.items[i]);
        assert(p.items[i].address@ == a);
    }
}

/// A pass over a store that nobody uses meanwhile reaches the target: each item has
/// its own address, its entry was not used since the scan, and nothing else counts
/// toward the size. If each entry was counted before the pass, each that is left still is.
pub proof fn law_quiet_pass_reaches_the_target(p: Pass, target: int)
    requires
        0 <= target,
        p.size == lru::total(lru::views(p.items)),
        forall|i: int, j: int|
            0 <= i < j < p.items.len() ==> (#[trigger] p.items[i]).address@ != (
            #[trigger] p.items[j]).address@,
        forall|i: int| 0 <= i < p.items.len() ==> is_unused(p.world, #[trigger] p.items[i]),
    ensures
        ({
            let q = evict(p, target);
            &&& q.size <= target
            &&& q.size == lru::total(lru::views(q.items))
            &&& is_accounted(p.world, p.items) ==> is_accounted(q.world, q.items)
        }),
    decreases p.items.len(),
{
    broadcast use crate::address::lemma_address_length;

    if p.size > target && p.items.len() > 0 {
        lemma_oldest(p.items);
        let o = oldest(p.items);
        let item = p.items[o];
        let m = p.consider(o);
        lru::lemma_total_remove(p.items, o);
        model::law_remove_if_unused_since(item.address, item.modified, p.world);
        assert(is_unused(p.world, item));
        assert forall|i: int| 0 <= i < m.items.len() implies is_unused(
            m.world,
            #[trigger] m.items[i],
        ) by {
            let h = if i < o {
                i
            } else {
                i + 1
            };
            assert(m.items[i] == p.items[h]);
            let a = p.items[h].address@;
            assert(a != item.address@);
            assert forall|k: Kind| #[trigger]
                m.world.has(a, k) == p.world.has(a, k) && (p.world.has(a, k) ==> m.world.entry(a, k)
                    == p.world.entry(a, k)) by {
                if lager::entry_components(a, k) == lager::entry_components(
                    item.address@,
                    Kind::File,
                ) {
                    model::law_entry_paths_are_distinct(a, k, item.address@, Kind::File);
                }
                if lager::entry_components(a, k) == lager::entry_components(
                    item.address@,
                    Kind::Dir,
                ) {
                    model::law_entry_paths_are_distinct(a, k, item.address@, Kind::Dir);
                }
            }
            assert(m.world.has(a, Kind::File) == p.world.has(a, Kind::File));
            assert(m.world.has(a, Kind::Dir) == p.world.has(a, Kind::Dir));
        }
        assert forall|i: int, j: int| 0 <= i < j < m.items.len() implies (
        #[trigger] m.items[i]).address@ != (#[trigger] m.items[j]).address@ by {
            assert(m.items[i] == p.items[if i < o {
                i
            } else {
                i + 1
            }]);
            assert(m.items[j] == p.items[if j < o {
                j
            } else {
                j + 1
            }]);
        }
        law_quiet_pass_reaches_the_target(m, target);
        if is_accounted(p.world, p.items) {
            lemma_considered_is_accounted(p, o);
        }
    }
}

/// Considering an item that was not used since the scan leaves the rest accounted for.
proof fn lemma_considered_is_accounted(p: Pass, o: int)
    requires
        0 <= o < p.items.len(),
        is_unused(p.world, p.items[o]),
        is_accounted(p.world, p.items),
    ensures
        is_accounted(p.consider(o).world, p.consider(o).items),
{
    broadcast use crate::address::lemma_address_length;

    let item = p.items[o];
    let m = p.consider(o);
    model::law_remove_if_unused_since(item.address, item.modified, p.world);
    assert(!(p.world.has(item.address@, Kind::File) && p.world.has(item.address@, Kind::Dir)));
    assert forall|a: Seq<u8>, k: Kind| a.len() == 64 && #[trigger] m.world.has(a, k) implies {
        &&& a != item.address@
        &&& p.world.has(a, k)
        &&& m.world.entry(a, k) == p.world.entry(a, k)
        &&& exists|i: int|
            0 <= i < m.items.len() && (#[trigger] m.items[i])@.address == a && m.items[i]@.size
                == m.world.entry(a, k).content.len()
    } by {
        assert(p.world.has(a, k));
        let h = choose|h: int|
            0 <= h < p.items.len() && (#[trigger] p.items[h])@.address == a && p.items[h]@.size
                == p.world.entry(a, k).content.len();
        let i = if h < o {
            h
        } else {
            h - 1
        };
        assert(h != o);
        assert(m.items[i] == p.items[h]);
    }
    assert forall|a: Seq<u8>| a.len() == 64 implies !(#[trigger] m.world.has(a, Kind::File)
        && m.world.has(a, Kind::Dir)) by {
        if m.world.has(a, Kind::File) && m.world.has(a, Kind::Dir) {
            assert(p.world.has(a, Kind::File) && p.world.has(a, Kind::Dir));
        }
    }
}

/// Whether the entry of an item is there and was not used since the scan.
pub open spec fn is_unused(w: World, item: Item) -> bool {
    is_unused_since(w, item.address@, item.modified)
}

/// Whether the entry of an address is there and was not used after a time.
pub open spec fn is_unused_since(w: World, a: Seq<u8>, since: i128) -> bool {
    if w.has(a, Kind::File) {
        w.entry(a, Kind::File).modified <= since
    } else {
        w.has(a, Kind::Dir) && w.entry(a, Kind::Dir).modified <= since
    }
}

/// Whether each address has one entry at most, and each entry is counted, with its length, by
/// an item of its address.
pub open spec fn is_accounted(w: World, items: Seq<Item>) -> bool {
    &&& w.single_entries()
    &&& forall|a: Seq<u8>, k: Kind|
        a.len() == 64 && #[trigger] w.has(a, k) ==> exists|i: int|
            0 <= i < items.len() && (#[trigger] items[i])@.address == a && items[i]@.size
                == w.entry(a, k).content.len()
}

/// Whether these are entries of a file system, none of them twice.
pub open spec fn are_entries(w: World, entries: Seq<(Seq<u8>, Kind)>) -> bool {
    &&& entries.no_duplicates()
    &&& forall|i: int|
        0 <= i < entries.len() ==> (#[trigger] entries[i]).0.len() == 64 && w.has(
            entries[i].0,
            entries[i].1,
        )
}

/// How many bytes entries take up on disk together.
pub open spec fn disk_size(w: World, entries: Seq<(Seq<u8>, Kind)>) -> nat
    decreases entries.len(),
{
    if entries.len() == 0 {
        0
    } else {
        let (a, k) = entries.last();
        disk_size(w, entries.drop_last()) + w.entry(a, k).content.len()
    }
}

/// Entries that are counted take up no more on disk than was counted.
pub proof fn law_counted_size_covers_the_disk(
    w: World,
    items: Seq<Item>,
    entries: Seq<(Seq<u8>, Kind)>,
)
    requires
        is_accounted(w, items),
        are_entries(w, entries),
    ensures
        disk_size(w, entries) <= lru::total(lru::views(items)),
{
    assert forall|j: int| 0 <= j < entries.len() implies has_item(
        w,
        items,
        #[trigger] entries[j],
    ) by {
        assert(w.has(entries[j].0, entries[j].1));
    }
    assert forall|i: int, j: int| 0 <= i < j < entries.len() implies (#[trigger] entries[i]).0 != (
    #[trigger] entries[j]).0 by {
        let a = entries[i].0;
        if a == entries[j].0 {
            assert(entries[i].1 != entries[j].1);
            assert(!(w.has(a, Kind::File) && w.has(a, Kind::Dir)));
        }
    }
    lemma_disk_size(w, items, entries);
}

spec fn has_item(w: World, items: Seq<Item>, entry: (Seq<u8>, Kind)) -> bool {
    exists|i: int|
        0 <= i < items.len() && (#[trigger] items[i])@.address == entry.0 && items[i]@.size
            == w.entry(entry.0, entry.1).content.len()
}

proof fn lemma_disk_size(w: World, items: Seq<Item>, entries: Seq<(Seq<u8>, Kind)>)
    requires
        forall|j: int| 0 <= j < entries.len() ==> has_item(w, items, #[trigger] entries[j]),
        forall|i: int, j: int|
            0 <= i < j < entries.len() ==> (#[trigger] entries[i]).0 != (#[trigger] entries[j]).0,
    ensures
        disk_size(w, entries) <= lru::total(lru::views(items)),
    decreases entries.len(),
{
    if entries.len() > 0 {
        let n = entries.len() - 1;
        let (a, k) = entries[n];
        let init = entries.drop_last();
        assert(has_item(w, items, entries[n]));
        let i = choose|i: int|
            0 <= i < items.len() && (#[trigger] items[i])@.address == a && items[i]@.size
                == w.entry(a, k).content.len();
        let rest = items.remove(i);
        lru::lemma_total_remove(items, i);
        assert forall|j: int| 0 <= j < init.len() implies has_item(
            w,
            rest,
            #[trigger] init[j],
        ) by {
            assert(init[j] == entries[j]);
            assert(entries[j].0 != entries[n].0);
            assert(has_item(w, items, entries[j]));
            let h = choose|h: int|
                0 <= h < items.len() && (#[trigger] items[h])@.address == entries[j].0
                    && items[h]@.size == w.entry(entries[j].0, entries[j].1).content.len();
            assert(h != i);
            assert(rest[if h < i {
                h
            } else {
                h - 1
            }] == items[h]);
        }
        assert forall|g: int, j: int| 0 <= g < j < init.len() implies (#[trigger] init[g]).0 != (
        #[trigger] init[j]).0 by {
            assert(init[g] == entries[g] && init[j] == entries[j]);
        }
        lemma_disk_size(w, rest, init);
    }
}

/// Whether what a walk came upon is the entry of a kind at an address.
pub open spec fn is_entry_of(listed: Listed, w: World, a: Seq<u8>, k: Kind) -> bool {
    &&& a.len() == 64
    &&& w.has(a, k)
    &&& listed.name@ == lager::entry_components(a, k)[2]
    &&& listed.modified == Ok::<i128, IoError>(w.entry(a, k).modified)
    &&& listed.len == w.entry(a, k).content.len()
}

/// Whether a walk yielded nothing but what is on disk: nothing failed, each file but those
/// that are passed over is an entry, and no address came up twice.
pub open spec fn is_walk_in(listing: Seq<Result<Listed, Error>>, w: World) -> bool {
    &&& forall|i: int|
        0 <= i < listing.len() ==> ((#[trigger] listing[i]) matches Ok(listed) && (
        listed.is_counted() ==> exists|a: Seq<u8>, k: Kind| is_entry_of(listed, w, a, k)))
    &&& forall|i: int, j: int|
        0 <= i < j < listing.len() && (#[trigger] listing[i])->Ok_0.is_counted() && (
        #[trigger] listing[j])->Ok_0.is_counted() ==> listing[i]->Ok_0.item().address
            != listing[j]->Ok_0.item().address
}

/// Whether a walk yielded what is on disk: it did so for nothing else, and it came upon each
/// entry.
pub open spec fn is_walk_of(listing: Seq<Result<Listed, Error>>, w: World) -> bool {
    &&& is_walk_in(listing, w)
    &&& forall|a: Seq<u8>, k: Kind|
        a.len() == 64 && #[trigger] w.has(a, k) ==> exists|i: int|
            0 <= i < listing.len() && ((#[trigger] listing[i]) matches Ok(listed)
                && listed.is_counted() && is_entry_of(listed, w, a, k))
}

/// Each file that counts is among the items of a listing.
proof fn lemma_counted_is_item(listing: Seq<Result<Listed, Error>>, i: int)
    requires
        0 <= i < listing.len(),
        listing[i] matches Ok(listed) && listed.is_counted(),
    ensures
        lru::items_of(listing).contains(listing[i]->Ok_0.item()),
    decreases listing.len(),
{
    let init = listing.drop_last();
    let items = lru::items_of(listing);
    let before = lru::items_of(init);
    let item = listing[i]->Ok_0.item();
    if i < listing.len() - 1 {
        assert(init[i] == listing[i]);
        lemma_counted_is_item(init, i);
        let j = before.index_of(item);
        assert(before[j] == item);
        assert(items[j] == item);
    } else {
        assert(items == before.push(item));
        assert(items[before.len() as int] == item);
    }
}

/// What a scan makes of a walk: each item is an entry that was not used since, and no two
/// share an address.
proof fn lemma_scanned_items(listing: Seq<Result<Listed, Error>>, w: World)
    requires
        is_walk_in(listing, w),
        w.single_entries(),
    ensures
        lru::taken(listing) == listing.len(),
        ({
            let items = lru::items_of(listing);
            &&& forall|j: int|
                0 <= j < items.len() ==> is_unused_since(
                    w,
                    (#[trigger] items[j]).address,
                    items[j].modified,
                )
            &&& forall|j: int|
                0 <= j < items.len() ==> exists|i: int|
                    0 <= i < listing.len() && (#[trigger] listing[i])->Ok_0.is_counted() && (
                    #[trigger] items[j]) == listing[i]->Ok_0.item()
            &&& forall|j: int, l: int|
                0 <= j < l < items.len() ==> (#[trigger] items[j]).address != (
                #[trigger] items[l]).address
        }),
    decreases listing.len(),
{
    if listing.len() > 0 {
        let init = listing.drop_last();
        let n = listing.len() - 1;
        assert forall|i: int| 0 <= i < init.len() implies ((#[trigger] init[i]) matches Ok(listed)
            && (listed.is_counted() ==> exists|a: Seq<u8>, k: Kind|
            is_entry_of(listed, w, a, k))) by {
            assert(init[i] == listing[i]);
        }
        assert forall|i: int, j: int|
            0 <= i < j < init.len() && (#[trigger] init[i])->Ok_0.is_counted() && (
            #[trigger] init[j])->Ok_0.is_counted() implies init[i]->Ok_0.item().address
            != init[j]->Ok_0.item().address by {
            assert(init[i] == listing[i] && init[j] == listing[j]);
        }
        lemma_scanned_items(init, w);
        let before = lru::items_of(init);
        let items = lru::items_of(listing);
        assert(listing[n] is Ok);
        let listed = listing[n]->Ok_0;
        if listed.is_counted() {
            let (a, k) = choose|a: Seq<u8>, k: Kind| is_entry_of(listed, w, a, k);
            law_entries_are_counted(listed, a, k);
            assert(w.has(a, Kind::File) && w.has(a, Kind::Dir) ==> false) by {
                assert(!(w.has(a, Kind::File) && w.has(a, Kind::Dir)));
            }
            assert(items == before.push(listed.item()));
            assert forall|j: int| 0 <= j < items.len() implies exists|i: int|
                0 <= i < listing.len() && (#[trigger] listing[i])->Ok_0.is_counted() && (
                #[trigger] items[j]) == listing[i]->Ok_0.item() by {
                if j < before.len() {
                    let i = choose|i: int|
                        0 <= i < init.len() && (#[trigger] init[i])->Ok_0.is_counted() && before[j]
                            == init[i]->Ok_0.item();
                    assert(listing[i] == init[i]);
                    assert(items[j] == before[j]);
                } else {
                    assert(items[j] == listing[n]->Ok_0.item());
                }
            }
            assert forall|j: int, l: int| 0 <= j < l < items.len() implies (
            #[trigger] items[j]).address != (#[trigger] items[l]).address by {
                if l == before.len() {
                    let i = choose|i: int|
                        0 <= i < init.len() && (#[trigger] init[i])->Ok_0.is_counted() && before[j]
                            == init[i]->Ok_0.item();
                    assert(listing[i] == init[i]);
                    assert(listing[i]->Ok_0.item().address != listing[n]->Ok_0.item().address);
                }
            }
        } else {
            assert forall|j: int| 0 <= j < items.len() implies exists|i: int|
                0 <= i < listing.len() && (#[trigger] listing[i])->Ok_0.is_counted() && (
                #[trigger] items[j]) == listing[i]->Ok_0.item() by {
                let i = choose|i: int|
                    0 <= i < init.len() && (#[trigger] init[i])->Ok_0.is_counted() && before[j]
                        == init[i]->Ok_0.item();
                assert(listing[i] == init[i]);
            }
        }
    }
}

/// A scan of a walk that came upon each entry accounts for each.
proof fn lemma_walk_is_accounted(
    listing: Seq<Result<Listed, Error>>,
    items: Seq<Item>,
    w: World,
)
    requires
        w.single_entries(),
        is_walk_of(listing, w),
        lru::views(items) == lru::items_of(listing),
    ensures
        is_accounted(w, items),
{
    let scanned = lru::items_of(listing);
    assert(lru::views(items).len() == items.len());
    assert forall|a: Seq<u8>, k: Kind| a.len() == 64 && #[trigger] w.has(a, k) implies exists|
        i: int,
    |
        0 <= i < items.len() && (#[trigger] items[i])@.address == a && items[i]@.size == w.entry(
            a,
            k,
        ).content.len() by {
        let h = choose|h: int|
            0 <= h < listing.len() && ((#[trigger] listing[h]) matches Ok(listed)
                && listed.is_counted() && is_entry_of(listed, w, a, k));
        let listed = listing[h]->Ok_0;
        law_entries_are_counted(listed, a, k);
        lemma_counted_is_item(listing, h);
        let i = scanned.index_of(listed.item());
        assert(scanned[i] == listed.item());
        assert(lru::views(items)[i] == items[i]@);
    }
}

/// The cache limits its disk space: a scan of the store and an eviction pass, while nobody
/// uses it, leave it at most at the target. The size that the pass ends with is that of the
/// items it left, and these count each entry that is left, with its length, so the entries
/// take up no more than the target on disk.
pub proof fn law_scan_and_pass_limit_the_size(
    listing: Seq<Result<Listed, Error>>,
    items: Seq<Item>,
    w: World,
    target: int,
)
    requires
        0 <= target,
        w.single_entries(),
        is_walk_of(listing, w),
        lru::views(items) == lru::items_of(listing.take(lru::taken(listing) as int)),
    ensures
        lru::taken(listing) == listing.len(),
        ({
            let p = Pass {
                items,
                size: lru::counted(listing) as int,
                removed: Seq::empty(),
                world: w,
            };
            let q = evict(p, target);
            &&& q.size <= target
            &&& q.size == lru::total(lru::views(q.items))
            &&& forall|a: Seq<u8>, k: Kind|
                a.len() == 64 && #[trigger] q.world.has(a, k) ==> exists|i: int|
                    0 <= i < q.items.len() && (#[trigger] q.items[i])@.address == a
                        && q.items[i]@.size == q.world.entry(a, k).content.len()
            &&& forall|entries: Seq<(Seq<u8>, Kind)>| #[trigger]
                are_entries(q.world, entries) ==> disk_size(q.world, entries) <= target
        }),
{
    lemma_scanned_items(listing, w);
    assert(listing.take(listing.len() as int) =~= listing);
    let scanned = lru::items_of(listing);
    let p = Pass { items, size: lru::counted(listing) as int, removed: Seq::empty(), world: w };
    assert(lru::views(items).len() == items.len());
    assert forall|i: int| 0 <= i < items.len() implies is_unused(w, #[trigger] items[i]) by {
        assert(lru::views(items)[i] == scanned[i]);
        assert(is_unused_since(w, scanned[i].address, scanned[i].modified));
    }
    assert forall|i: int, j: int| 0 <= i < j < items.len() implies (#[trigger] items[i]).address@
        != (#[trigger] items[j]).address@ by {
        assert(lru::views(items)[i] == scanned[i] && lru::views(items)[j] == scanned[j]);
        assert(scanned[i].address != scanned[j].address);
    }
    lemma_walk_is_accounted(listing, items, w);
    law_quiet_pass_reaches_the_target(p, target);
    let q = evict(p, target);
    assert forall|entries: Seq<(Seq<u8>, Kind)>| #[trigger]
        are_entries(q.world, entries) implies disk_size(q.world, entries) <= target by {
        law_counted_size_covers_the_disk(q.world, q.items, entries);
    }
}

/// An item is an entry of the scanned file system, with its address, its time and its size.
proof fn lemma_item_is_entry(
    listing: Seq<Result<Listed, Error>>,
    items: Seq<Item>,
    w: World,
    i: int,
    k: Kind,
)
    requires
        w.single_entries(),
        is_walk_in(listing, w),
        lru::views(items) == lru::items_of(listing),
        0 <= i < items.len(),
        w.has(items[i].address@, k),
    ensures
        items[i].modified == w.entry(items[i].address@, k).modified,
{
    lemma_scanned_items(listing, w);
    let scanned = lru::items_of(listing);
    assert(lru::views(items)[i] == items[i]@);
    assert(lru::views(items).len() == items.len());
    let h = choose|h: int|
        0 <= h < listing.len() && (#[trigger] listing[h])->Ok_0.is_counted() && scanned[i]
            == listing[h]->Ok_0.item();
    assert(listing[h] is Ok);
    let listed = listing[h]->Ok_0;
    let (a, l) = choose|a: Seq<u8>, l: Kind| is_entry_of(listed, w, a, l);
    law_entries_are_counted(listed, a, l);
    assert(!(w.has(a, Kind::File) && w.has(a, Kind::Dir)));
    assert(k == l);
}

/// An entry that was not used since the scan, and that a pass leaves, was not considered.
proof fn lemma_left_is_not_considered(p: Pass, target: int, i: int, k: Kind)
    requires
        forall|g: int, j: int|
            0 <= g < j < p.items.len() ==> (#[trigger] p.items[g]).address@ != (
            #[trigger] p.items[j]).address@,
        0 <= i < p.items.len(),
        p.world.has(p.items[i].address@, k),
        !p.world.has(p.items[i].address@, k.other_kind()),
        p.world.entry(p.items[i].address@, k).modified <= p.items[i].modified,
        evict(p, target).world.has(p.items[i].address@, k),
    ensures
        evict(p, target).items.contains(p.items[i]),
    decreases p.items.len(),
{
    broadcast use crate::address::lemma_address_length;

    let q = evict(p, target);
    let a = p.items[i].address@;
    if p.size <= target {
        assert(q.items[i] == p.items[i]);
    } else {
        lemma_oldest(p.items);
        let o = oldest(p.items);
        let item = p.items[o];
        let m = p.consider(o);
        assert(q == evict(m, target));
        model::law_remove_if_unused_since(item.address, item.modified, p.world);
        law_evict_until(m, target);
        if o == i {
            let path = lager::entry_components(a, k);
            assert(!m.world.files.contains_key(path));
            assert(q.world.files.contains_key(path));
        } else {
            assert(a != item.address@);
            assert forall|l: Kind| #[trigger]
                m.world.has(a, l) == p.world.has(a, l) && (p.world.has(a, l) ==> m.world.entry(a, l)
                    == p.world.entry(a, l)) by {
                if lager::entry_components(a, l) == lager::entry_components(
                    item.address@,
                    Kind::File,
                ) {
                    model::law_entry_paths_are_distinct(a, l, item.address@, Kind::File);
                }
                if lager::entry_components(a, l) == lager::entry_components(
                    item.address@,
                    Kind::Dir,
                ) {
                    model::law_entry_paths_are_distinct(a, l, item.address@, Kind::Dir);
                }
            }
            assert(m.world.has(a, k) == p.world.has(a, k));
            assert(m.world.has(a, k.other_kind()) == p.world.has(a, k.other_kind()));
            assert forall|g: int, j: int| 0 <= g < j < m.items.len() implies (
            #[trigger] m.items[g]).address@ != (#[trigger] m.items[j]).address@ by {
                assert(m.items[g] == p.items[if g < o {
                    g
                } else {
                    g + 1
                }]);
                assert(m.items[j] == p.items[if j < o {
                    j
                } else {
                    j + 1
                }]);
            }
            let h = if i < o {
                i
            } else {
                i - 1
            };
            assert(m.items[h] == p.items[i]);
            lemma_left_is_not_considered(m, target, h, k);
        }
    }
}

/// The items of a scan have each their own address.
proof fn lemma_items_are_distinct(
    listing: Seq<Result<Listed, Error>>,
    items: Seq<Item>,
    w: World,
)
    requires
        w.single_entries(),
        is_walk_in(listing, w),
        lru::views(items) == lru::items_of(listing),
    ensures
        forall|i: int, j: int|
            0 <= i < j < items.len() ==> (#[trigger] items[i]).address@ != (
            #[trigger] items[j]).address@,
{
    lemma_scanned_items(listing, w);
    let scanned = lru::items_of(listing);
    assert(lru::views(items).len() == items.len());
    assert forall|i: int, j: int| 0 <= i < j < items.len() implies (#[trigger] items[i]).address@
        != (#[trigger] items[j]).address@ by {
        assert(lru::views(items)[i] == scanned[i] && lru::views(items)[j] == scanned[j]);
        assert(scanned[i].address != scanned[j].address);
    }
}

/// The entry that a pass removed is one of the items, with the time that the scan found.
proof fn lemma_removed_is_entry(
    listing: Seq<Result<Listed, Error>>,
    p: Pass,
    w: World,
    target: int,
    a: Seq<u8>,
    k: Kind,
) -> (j: int)
    requires
        w.single_entries(),
        is_walk_in(listing, w),
        lru::views(p.items) == lru::items_of(listing),
        p.removed.len() == 0,
        a.len() == 64,
        w.has(a, k),
        p.world.has(a, k),
        !evict(p, target).world.has(a, k),
    ensures
        0 <= j < evict(p, target).removed.len(),
        evict(p, target).removed[j].last_used == w.entry(a, k).modified,
{
    broadcast use crate::address::lemma_address_length;

    law_evict_until(p, target);
    let q = evict(p, target);
    let path = lager::entry_components(a, k);
    assert(p.world.files.contains_key(path) && !q.world.files.contains_key(path));
    let (j, kind) = choose|j: int, kind: Kind|
        0 <= j < q.removed.len() && path == #[trigger] lager::entry_components(
            q.removed[j].address@,
            kind,
        ) && p.world.files[path].modified <= q.removed[j].last_used;
    model::law_entry_paths_are_distinct(a, k, q.removed[j].address@, kind);
    let g = choose|g: int|
        0 <= g < p.items.len() && q.removed[j] == lru::evicted(#[trigger] p.items[g]);
    lemma_item_is_entry(listing, p.items, w, g, k);
    j
}

/// The entry that a pass left and that was not used since the scan is one of the items that
/// it left, with the time that the scan found.
proof fn lemma_left_is_entry(
    listing: Seq<Result<Listed, Error>>,
    p: Pass,
    w: World,
    target: int,
    b: Seq<u8>,
    l: Kind,
) -> (f: int)
    requires
        w.single_entries(),
        p.world.single_entries(),
        is_walk_of(listing, w),
        lru::views(p.items) == lru::items_of(listing),
        b.len() == 64,
        w.has(b, l),
        p.world.has(b, l),
        p.world.entry(b, l).modified <= w.entry(b, l).modified,
        evict(p, target).world.has(b, l),
    ensures
        0 <= f < evict(p, target).items.len(),
        evict(p, target).items[f].modified == w.entry(b, l).modified,
{
    let q = evict(p, target);
    lemma_walk_is_accounted(listing, p.items, w);
    lemma_items_are_distinct(listing, p.items, w);
    let h = choose|h: int|
        0 <= h < p.items.len() && (#[trigger] p.items[h])@.address == b && p.items[h]@.size
            == w.entry(b, l).content.len();
    lemma_item_is_entry(listing, p.items, w, h, l);
    assert(!(p.world.has(b, Kind::File) && p.world.has(b, Kind::Dir)));
    lemma_left_is_not_considered(p, target, h, l);
    q.items.index_of(p.items[h])
}

/// The least recently used entries go first: of the entries that a walk came upon, one that a
/// pass removes was modified no later than one that it leaves, unless that was used after the
/// scan. Whatever else happened to the store in between makes no difference.
#[verifier::spinoff_prover]
#[verifier::rlimit(40)]
pub proof fn law_least_recently_used_go_first(
    listing: Seq<Result<Listed, Error>>,
    items: Seq<Item>,
    w: World,
    later: World,
    target: int,
    a: Seq<u8>,
    k: Kind,
    b: Seq<u8>,
    l: Kind,
)
    requires
        w.single_entries(),
        later.single_entries(),
        is_walk_of(listing, w),
        lru::views(items) == lru::items_of(listing.take(lru::taken(listing) as int)),
        ({
            let p = Pass {
                items,
                size: lru::counted(listing) as int,
                removed: Seq::empty(),
                world: later,
            };
            let q = evict(p, target);
            &&& a.len() == 64
            &&& w.has(a, k) && later.has(a, k) && !q.world.has(a, k)
            &&& b.len() == 64
            &&& w.has(b, l) && q.world.has(b, l)
            &&& later.entry(b, l).modified <= w.entry(b, l).modified
        }),
    ensures
        w.entry(a, k).modified <= w.entry(b, l).modified,
{
    assert(lru::taken(listing) == listing.len() && listing.take(listing.len() as int) == listing)
        by {
        lemma_scanned_items(listing, w);
        assert(listing.take(listing.len() as int) =~= listing);
    }
    let p = Pass {
        items,
        size: lru::counted(listing) as int,
        removed: Seq::empty(),
        world: later,
    };
    let q = evict(p, target);
    law_evict_until(p, target);
    assert(p.world.has(b, l)) by {
        assert(q.world.files.contains_key(lager::entry_components(b, l)));
    }
    let j = lemma_removed_is_entry(listing, p, w, target, a, k);
    let f = lemma_left_is_entry(listing, p, w, target, b, l);
    assert(q.removed[j].last_used <= q.items[f].modified);
}

/// What was used after the scan is kept, as it is: an entry that a walk came upon and that was
/// stored or retrieved since.
pub proof fn law_entries_used_since_the_scan_are_kept(
    listing: Seq<Result<Listed, Error>>,
    items: Seq<Item>,
    w: World,
    later: World,
    target: int,
    a: Seq<u8>,
    k: Kind,
)
    requires
        w.single_entries(),
        is_walk_of(listing, w),
        lru::views(items) == lru::items_of(listing.take(lru::taken(listing) as int)),
        a.len() == 64,
        w.has(a, k),
        later.has(a, k),
        later.entry(a, k).modified > w.entry(a, k).modified,
    ensures
        ({
            let p = Pass {
                items,
                size: lru::counted(listing) as int,
                removed: Seq::empty(),
                world: later,
            };
            let q = evict(p, target);
            q.world.has(a, k) && q.world.entry(a, k) == later.entry(a, k)
        }),
{
    lemma_scanned_items(listing, w);
    assert(listing.take(listing.len() as int) =~= listing);
    let p = Pass {
        items,
        size: lru::counted(listing) as int,
        removed: Seq::empty(),
        world: later,
    };
    assert forall|i: int|
        0 <= i < p.items.len() && (
        #[trigger] p.items[i]).address@ == a implies p.items[i].modified
        < p.world.entry(a, k).modified by {
        lemma_item_is_entry(listing, items, w, i, k);
    }
    law_used_entries_survive_a_pass(p, target, a, k);
}

} // verus!
