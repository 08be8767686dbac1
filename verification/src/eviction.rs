//! Keeping the store of a server under its size.

use crate::lager::Kind;
use crate::lru;
use crate::lru::{EvictStep, Evicted, LRU};
use crate::metrics::{Event, Metrics, Totals};
use crate::pass;
use vstd::prelude::*;

verus! {

/// The low-water mark below a size: 5 % under it.
pub open spec fn low_water(max: u64) -> u64 {
    (max - max / 20) as u64
}

/// Whether to evict after an upload: once uploads since the last pass exceed 5 % of the
/// capacity, so a burst of uploads cannot overshoot the limit by much before the periodic
/// pass runs.
pub fn maybe_evict_after_upload(max_size: u64, totals: &Totals) -> (r: bool)
    ensures
        r == (totals.bytes_since_evict > max_size / 20),
{
    totals.bytes_since_evict > max_size / 20
}

/// The size that a pass shrinks a store to: one that is too large down to a low-water mark,
/// so that a full cache does not trigger an eviction pass on every single upload.
pub open spec fn pass_target(max: u64, size: u64) -> u64 {
    if size > max {
        low_water(max)
    } else {
        max
    }
}

/// Begins an eviction pass over a store that was scanned.
pub fn evict<R>(lru: LRU<R>, max: u64) -> (step: EvictStep<R>)
    requires
        lru.inv(),
    ensures
        step.is_next(
            lru.items(),
            lru.size(),
            lru.lager(),
            pass_target(max, lru.size()),
            Seq::empty(),
        ),
{
    if lru.lager_size() > max {
        lru.evict_until(max - max / 20)
    } else {
        lru.evict_until(max)
    }
}

/// The bytes that a pass freed.
pub fn freed(before: u64, after: u64) -> (r: u64)
    ensures
        r == if before > after {
            before - after
        } else {
            0
        },
{
    before.saturating_sub(after)
}

/// A pass over a store that is not too large removes nothing.
pub proof fn law_small_store_is_left_alone(p: pass::Pass, max: u64)
    requires
        0 <= p.size <= max,
    ensures
        pass::evict(p, pass_target(max, p.size as u64) as int) == p,
{
}

/// A store that was shrunk has room: as long as no more comes in than makes a pass run
/// after an upload, the next pass finds the store within its size and removes nothing.
pub proof fn law_low_water_leaves_room(max: u64, size: u64, uploaded: u64)
    requires
        size <= low_water(max),
        uploaded <= max / 20,
    ensures
        size + uploaded <= max,
        pass_target(max, (size + uploaded) as u64) == max,
{
}

/// A quiet pass keeps the store under its size: if nobody uses the store meanwhile, it
/// ends at most at the size, and at the low-water mark if it was too large. If each entry
/// was counted before the pass, the entries that are left take up no more than that on disk.
pub proof fn law_quiet_pass_keeps_the_size(p: pass::Pass, max: u64)
    requires
        0 <= p.size <= u64::MAX,
        p.size == lru::total(lru::views(p.items)),
        forall|i: int, j: int|
            0 <= i < j < p.items.len() ==> (#[trigger] p.items[i]).address@ != (
            #[trigger] p.items[j]).address@,
        forall|i: int| 0 <= i < p.items.len() ==> pass::is_unused(p.world, #[trigger] p.items[i]),
    ensures
        ({
            let q = pass::evict(p, pass_target(max, p.size as u64) as int);
            &&& q.size <= max
            &&& p.size > max ==> q.size <= low_water(max)
            &&& pass::is_accounted(p.world, p.items) ==> forall|entries: Seq<(Seq<u8>, Kind)>|
                #[trigger]
                pass::are_entries(q.world, entries) ==> pass::disk_size(q.world, entries) <= q.size
        }),
{
    pass::law_quiet_pass_reaches_the_target(p, pass_target(max, p.size as u64) as int);
    let q = pass::evict(p, pass_target(max, p.size as u64) as int);
    if pass::is_accounted(p.world, p.items) {
        assert forall|entries: Seq<(Seq<u8>, Kind)>| #[trigger]
            pass::are_entries(q.world, entries) implies pass::disk_size(q.world, entries)
            <= q.size by {
            pass::law_counted_size_covers_the_disk(q.world, q.items, entries);
        }
    }
}

/// Uploads that land while a pass runs count toward the next one: the pass sets the bytes
/// back as it begins, and neither its end nor its failure does so again.
pub proof fn law_uploads_during_a_pass_count(
    begun: Metrics,
    event: Event,
    bytes: u64,
    before: Metrics,
    after: Metrics,
    size: u64,
    entries: usize,
    evicted: Seq<Evicted>,
    now: i128,
    seconds: u64,
)
    requires
        event == Event::Upload || event == Event::Duplicate,
        begun.counts().bytes_since_evict == 0,
        before.counts() == begun.counts().after(event, bytes),
        after == before || after.has_recorded(before, size, entries, evicted, now, seconds),
    ensures
        after.counts().bytes_since_evict == bytes,
{
}

/// The low-water mark lies a twentieth below the size, to the byte.
pub proof fn law_low_water_is_a_twentieth_below(max: u64)
    ensures
        low_water(max) <= max,
        20 * (max - low_water(max)) <= max < 20 * (max - low_water(max) + 1),
{
}

/// A store that is not too large is to stay as it is, and one that is too large is to shrink
/// to the low-water mark.
pub proof fn law_pass_shrinks_what_is_too_large(max: u64, size: u64)
    ensures
        size <= max ==> size <= pass_target(max, size) <= max,
        size > max ==> pass_target(max, size) < size && 20 * (max - pass_target(max, size)) <= max
            < 20 * (max - pass_target(max, size) + 1),
{
}

} // verus!
