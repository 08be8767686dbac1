//! The history of the last day, minute by minute.

use crate::metrics::Event;
use vstd::prelude::*;

verus! {

/// The length of a bucket of the history, in seconds.
pub const BUCKET_SECONDS: u64 = 60;

/// How far back the history goes, in seconds.
pub const HISTORY_SECONDS: u64 = 86400;

/// One minute of the history.
#[derive(Clone, Copy, Debug)]
pub struct Bucket {
    /// When the minute began, in seconds since the epoch.
    pub start: u64,
    pub hits: u64,
    pub misses: u64,
    pub uploads: u64,
    /// Bytes sent to and received from clients.
    pub bytes: u64,
    /// The size measured by the last eviction pass in the minute.
    pub size: Option<u64>,
}

/// When the minute of a time began.
pub open spec fn minute(now: u64) -> u64 {
    (now - now % BUCKET_SECONDS) as u64
}

impl Bucket {
    /// A minute in which nothing happened.
    pub open spec fn empty(start: u64) -> Bucket {
        Bucket { start, hits: 0, misses: 0, uploads: 0, bytes: 0, size: None }
    }

    /// The minute after an event with some bytes.
    pub open spec fn after(self, event: Event, bytes: u64) -> Bucket {
        match event {
            Event::Hit => Bucket {
                hits: self.hits.wrapping_add(1),
                bytes: self.bytes.wrapping_add(bytes),
                ..self
            },
            Event::Miss => Bucket { misses: self.misses.wrapping_add(1), ..self },
            Event::Upload => Bucket {
                uploads: self.uploads.wrapping_add(1),
                bytes: self.bytes.wrapping_add(bytes),
                ..self
            },
            Event::Duplicate => Bucket { bytes: self.bytes.wrapping_add(bytes), ..self },
            Event::Unauthorized => self,
        }
    }

    /// Takes up an event.
    pub fn noted(self, event: Event, bytes: u64) -> (b: Bucket)
        ensures
            b == self.after(event, bytes),
    {
        let mut b = self;
        match event {
            Event::Hit => {
                b.hits = b.hits.wrapping_add(1);
                b.bytes = b.bytes.wrapping_add(bytes);
            },
            Event::Miss => {
                b.misses = b.misses.wrapping_add(1);
            },
            Event::Upload => {
                b.uploads = b.uploads.wrapping_add(1);
                b.bytes = b.bytes.wrapping_add(bytes);
            },
            Event::Duplicate => {
                b.bytes = b.bytes.wrapping_add(bytes);
            },
            Event::Unauthorized => {},
        }
        b
    }
}

/// Whether minutes stand in their order, each at most once.
pub open spec fn is_chronological(buckets: Seq<Bucket>) -> bool {
    forall|i: int, j: int|
        0 <= i < j < buckets.len() ==> (#[trigger] buckets[i]).start < (#[trigger] buckets[j]).start
}

/// The minute that began at a time, if something happened in it.
pub open spec fn bucket_at(buckets: Seq<Bucket>, start: u64) -> Option<Bucket>
    decreases buckets.len(),
{
    if buckets.len() == 0 {
        None
    } else if buckets.last().start == start {
        Some(buckets.last())
    } else {
        bucket_at(buckets.drop_last(), start)
    }
}

/// The minute that began at a time.
pub open spec fn bucket_or_empty(buckets: Seq<Bucket>, start: u64) -> Bucket {
    match bucket_at(buckets, start) {
        Some(b) => b,
        None => Bucket::empty(start),
    }
}

/// Whether a minute overlaps the last so many seconds.
pub open spec fn is_within(start: u64, now: u64, seconds: u64) -> bool {
    start + BUCKET_SECONDS > now - seconds
}

/// A minute is found exactly if it is there.
pub proof fn lemma_bucket_at(buckets: Seq<Bucket>, start: u64)
    requires
        is_chronological(buckets),
    ensures
        match bucket_at(buckets, start) {
            Some(b) => b.start == start && buckets.contains(b),
            None => forall|i: int| 0 <= i < buckets.len() ==> (#[trigger] buckets[i]).start != start,
        },
        forall|i: int|
            0 <= i < buckets.len() && (#[trigger] buckets[i]).start == start ==> bucket_at(
                buckets,
                start,
            ) == Some(buckets[i]),
    decreases buckets.len(),
{
    if buckets.len() > 0 {
        let init = buckets.drop_last();
        lemma_bucket_at(init, start);
        if buckets.last().start == start {
            assert(buckets.contains(buckets.last()));
        } else if bucket_at(init, start) is Some {
            let b = bucket_at(init, start)->0;
            let i = init.index_of(b);
            assert(buckets[i] == b);
        }
        assert forall|i: int|
            0 <= i < buckets.len() && (#[trigger] buckets[i]).start == start implies bucket_at(
            buckets,
            start,
        ) == Some(buckets[i]) by {
            if i < init.len() {
                assert(init[i] == buckets[i]);
            }
        }
        if bucket_at(buckets, start) is None {
            assert forall|i: int| 0 <= i < buckets.len() implies (#[trigger] buckets[i]).start
                != start by {
                if i < init.len() {
                    assert(init[i] == buckets[i]);
                }
            }
        }
    }
}

/// The minute that began at a time.
pub fn get_bucket(buckets: &Vec<Bucket>, start: u64) -> (b: Bucket)
    requires
        is_chronological(buckets@),
    ensures
        b == bucket_or_empty(buckets@, start),
{
    proof {
        lemma_bucket_at(buckets@, start);
    }
    let mut i: usize = buckets.len();
    while i > 0
        invariant
            i <= buckets@.len(),
            forall|j: int| i <= j < buckets@.len() ==> (#[trigger] buckets@[j]).start != start,
            forall|j: int|
                0 <= j < buckets@.len() && (#[trigger] buckets@[j]).start == start ==> bucket_at(
                    buckets@,
                    start,
                ) == Some(buckets@[j]),
        decreases i,
    {
        i = i - 1;
        if buckets[i].start == start {
            return buckets[i];
        }
    }
    proof {
        if bucket_at(buckets@, start) is Some {
            let b = bucket_at(buckets@, start)->0;
            let j = buckets@.index_of(b);
            assert(buckets@[j].start == start);
        }
    }
    Bucket { start, hits: 0, misses: 0, uploads: 0, bytes: 0, size: None }
}

/// Puts a minute in its place.
pub fn put_bucket(buckets: &mut Vec<Bucket>, b: Bucket)
    requires
        is_chronological(old(buckets)@),
    ensures
        is_chronological(final(buckets)@),
        forall|s: u64| #[trigger]
            bucket_at(final(buckets)@, s) == if s == b.start {
                Some(b)
            } else {
                bucket_at(old(buckets)@, s)
            },
{
    let ghost before = buckets@;
    let n: usize = buckets.len();
    let mut i: usize = n;
    while i > 0 && buckets[i - 1].start >= b.start
        invariant
            i <= n,
            n == buckets@.len(),
            before == buckets@,
            forall|j: int| i <= j < n ==> (#[trigger] before[j]).start >= b.start,
        decreases i,
    {
        i = i - 1;
    }
    if i < n && buckets[i].start == b.start {
        buckets.set(i, b);
    } else {
        buckets.insert(i, b);
    }
    proof {
        let after = buckets@;
        let shift: int = if after.len() > before.len() {
            1
        } else {
            0
        };
        assert(after.len() == before.len() + shift);
        assert(after[i as int] == b);
        assert forall|j: int| 0 <= j < i implies after[j] == #[trigger] before[j] by {}
        assert forall|j: int| i < j < after.len() implies #[trigger] after[j] == before[j
            - shift] by {}
        assert forall|j: int| 0 <= j < i implies (#[trigger] before[j]).start < b.start by {
            if j < i - 1 {
                assert(before[j].start < before[i - 1].start);
            }
        }
        assert forall|j: int| i < j < after.len() implies (#[trigger] after[j]).start > b.start by {
            assert(after[j] == before[j - shift]);
            if j - shift > i {
                assert(before[i as int].start < before[j - shift].start);
            }
        }
        assert forall|j: int, k: int| 0 <= j < k < after.len() implies (#[trigger] after[j]).start
            < (#[trigger] after[k]).start by {
            if j < i {
                assert(after[j] == before[j]);
                if k > i {
                    assert(after[k] == before[k - shift]);
                }
            } else if j > i {
                assert(after[j] == before[j - shift] && after[k] == before[k - shift]);
            }
        }
        assert forall|s: u64| #[trigger]
            bucket_at(after, s) == if s == b.start {
                Some(b)
            } else {
                bucket_at(before, s)
            } by {
            lemma_bucket_at(after, s);
            lemma_bucket_at(before, s);
            if s != b.start {
                if bucket_at(before, s) is Some {
                    let c = bucket_at(before, s)->0;
                    let j = before.index_of(c);
                    let k = if j < i {
                        j
                    } else {
                        j + shift
                    };
                    assert(after[k] == c);
                } else if bucket_at(after, s) is Some {
                    let c = bucket_at(after, s)->0;
                    let k = after.index_of(c);
                    let j = if k < i {
                        k
                    } else {
                        k - shift
                    };
                    assert(before[j] == c);
                }
            }
        }
    }
}

/// The minutes that overlap the last so many seconds.
pub fn recent(buckets: &Vec<Bucket>, now: u64, seconds: u64) -> (r: Vec<Bucket>)
    requires
        is_chronological(buckets@),
    ensures
        is_chronological(r@),
        forall|s: u64| #[trigger]
            bucket_at(r@, s) == if is_within(s, now, seconds) {
                bucket_at(buckets@, s)
            } else {
                None
            },
{
    let lo: u64 = if now > seconds {
        now - seconds
    } else {
        0
    };
    let n: usize = buckets.len();
    let mut i: usize = n;
    while i > 0 && (buckets[i - 1].start > u64::MAX - BUCKET_SECONDS || buckets[i - 1].start
        + BUCKET_SECONDS > lo)
        invariant
            i <= n,
            n == buckets@.len(),
            lo == if now > seconds {
                now - seconds
            } else {
                0
            },
            forall|j: int|
                i <= j < n ==> is_within((#[trigger] buckets@[j]).start, now, seconds),
        decreases i,
    {
        i = i - 1;
    }
    let mut r: Vec<Bucket> = Vec::new();
    for k in i..n
        invariant
            n == buckets@.len(),
            i <= n,
            r@ == buckets@.subrange(i as int, k as int),
    {
        r.push(buckets[k]);
        assert(buckets@.subrange(i as int, k + 1) =~= buckets@.subrange(i as int, k as int).push(
            buckets@[k as int],
        ));
    }
    proof {
        let all = buckets@;
        assert(r@ =~= all.skip(i as int));
        assert forall|j: int| 0 <= j < i implies !is_within(
            (#[trigger] all[j]).start,
            now,
            seconds,
        ) by {
            if j < i - 1 {
                assert(all[j].start < all[i - 1].start);
            }
        }
        assert forall|j: int, k: int| 0 <= j < k < r@.len() implies (#[trigger] r@[j]).start < (
        #[trigger] r@[k]).start by {
            assert(r@[j] == all[i + j] && r@[k] == all[i + k]);
        }
        assert forall|s: u64| #[trigger]
            bucket_at(r@, s) == if is_within(s, now, seconds) {
                bucket_at(all, s)
            } else {
                None
            } by {
            lemma_bucket_at(all, s);
            lemma_bucket_at(r@, s);
            if bucket_at(r@, s) is Some {
                let c = bucket_at(r@, s)->0;
                let k = r@.index_of(c);
                assert(all[i + k] == c);
                assert(is_within(all[i + k].start, now, seconds));
            } else if bucket_at(all, s) is Some {
                let c = bucket_at(all, s)->0;
                let k = all.index_of(c);
                assert(all[k].start == s);
                if k >= i {
                    assert(r@[k - i] == c);
                }
            }
        }
    }
    r
}

/// A minute begins at a whole minute, and a time lies in the minute that is found for it.
pub proof fn law_times_lie_in_their_minute(now: u64)
    ensures
        minute(now) % 60 == 0,
        minute(now) <= now < minute(now) + 60,
{
}

/// An event of a minute goes up in one counter at most, the one that it is, by one. Its bytes
/// are counted if any were sent or received. When the minute began and its size stay.
pub proof fn law_event_is_counted_once(b: Bucket, event: Event, bytes: u64)
    ensures
        ({
            let c = b.after(event, bytes);
            &&& c.hits == b.hits.wrapping_add(
                if event is Hit {
                    1
                } else {
                    0
                },
            )
            &&& c.misses == b.misses.wrapping_add(
                if event is Miss {
                    1
                } else {
                    0
                },
            )
            &&& c.uploads == b.uploads.wrapping_add(
                if event is Upload {
                    1
                } else {
                    0
                },
            )
            &&& c.bytes == b.bytes.wrapping_add(
                if event is Miss || event is Unauthorized {
                    0
                } else {
                    bytes
                },
            )
            &&& c.start == b.start
            &&& c.size == b.size
        }),
{
}

/// A minute in which nothing happened has nothing counted.
pub proof fn law_empty_minute_has_nothing_counted(buckets: Seq<Bucket>, start: u64)
    requires
        is_chronological(buckets),
    ensures
        ({
            let b = bucket_or_empty(buckets, start);
            &&& b.start == start
            &&& (forall|i: int| 0 <= i < buckets.len() ==> (#[trigger] buckets[i]).start != start)
                ==> b.hits == 0 && b.misses == 0 && b.uploads == 0 && b.bytes == 0 && b.size is None
            &&& forall|i: int|
                0 <= i < buckets.len() && (#[trigger] buckets[i]).start == start ==> b
                    == buckets[i]
        }),
{
    lemma_bucket_at(buckets, start);
}

/// The minutes of a window are those that hold one of its last so many seconds: the minute of
/// each time in the window is one, and none that was over before is.
pub proof fn law_window_holds_its_minutes(t: u64, now: u64, seconds: u64)
    ensures
        t >= now - seconds ==> is_within(minute(t), now, seconds),
        t + 60 <= now - seconds ==> !is_within(t, now, seconds),
        t <= now && t > now - seconds - 60 ==> is_within(t, now, seconds),
        HISTORY_SECONDS == 24 * 60 * 60,
{
}

} // verus!
