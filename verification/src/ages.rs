//! How long entries had gone unused when they were evicted.

use crate::lru::Evicted;
use vstd::prelude::*;

verus! {

/// How long entries had gone unused when they were evicted.
#[derive(Clone, Copy, Debug)]
pub struct EvictionAges {
    /// How many entries went unused for at most each bound, and more than the one before.
    pub buckets: [u64; 6],
    pub bytes_evicted: u64,
    pub min_seconds: Option<u64>,
    pub median_seconds: Option<u64>,
}

/// The bounds of the ages at eviction, in seconds: an hour, six hours, a day, three days,
/// seven days, and any time.
pub open spec fn age_bound(class: int) -> u64 {
    if class == 0 {
        3600
    } else if class == 1 {
        21600
    } else if class == 2 {
        86400
    } else if class == 3 {
        259200
    } else if class == 4 {
        604800
    } else {
        u64::MAX
    }
}

/// The bounds of the ages at eviction, in seconds.
pub fn age_bounds() -> (bounds: [u64; 6])
    ensures
        forall|i: int| 0 <= i < 6 ==> #[trigger] bounds@[i] == age_bound(i),
{
    [3600, 21600, 86400, 259200, 604800, u64::MAX]
}

/// The first bound that an age is within.
pub open spec fn age_class(age: u64) -> int {
    if age <= 3600 {
        0
    } else if age <= 21600 {
        1
    } else if age <= 86400 {
        2
    } else if age <= 259200 {
        3
    } else if age <= 604800 {
        4
    } else {
        5
    }
}

/// Finds the first bound that an age is within.
pub fn find_class(age: u64) -> (class: usize)
    ensures
        class == age_class(age),
{
    if age <= 3600 {
        0
    } else if age <= 21600 {
        1
    } else if age <= 86400 {
        2
    } else if age <= 259200 {
        3
    } else if age <= 604800 {
        4
    } else {
        5
    }
}

/// How many ages fall in a class.
pub open spec fn count_class(ages: Seq<u64>, class: int) -> nat
    decreases ages.len(),
{
    if ages.len() == 0 {
        0
    } else {
        count_class(ages.drop_last(), class) + if age_class(ages.last()) == class {
            1nat
        } else {
            0
        }
    }
}

/// Every age falls in one class.
pub proof fn law_ages_fall_in_one_class(ages: Seq<u64>)
    ensures
        count_class(ages, 0) + count_class(ages, 1) + count_class(ages, 2) + count_class(ages, 3)
            + count_class(ages, 4) + count_class(ages, 5) == ages.len(),
    decreases ages.len(),
{
    if ages.len() > 0 {
        law_ages_fall_in_one_class(ages.drop_last());
    }
}

/// How long an entry had gone unused at a time, in whole seconds. Times are in nanoseconds
/// since the epoch.
pub open spec fn age_seconds(last_used: i128, now: i128) -> u64 {
    let age = if now > last_used {
        (now - last_used) / 1000000000
    } else {
        0
    };
    if age > u64::MAX {
        u64::MAX
    } else {
        age as u64
    }
}

/// Works out how long an entry had gone unused.
pub fn find_age(last_used: i128, now: i128) -> (age: u64)
    ensures
        age == age_seconds(last_used, now),
{
    if now <= last_used {
        return 0;
    }
    match now.checked_sub(last_used) {
        None => u64::MAX,
        Some(nanoseconds) => {
            let seconds: i128 = nanoseconds / 1000000000;
            if seconds > u64::MAX as i128 {
                u64::MAX
            } else {
                seconds as u64
            }
        },
    }
}

/// The ages of removed entries.
pub open spec fn ages_of(evicted: Seq<Evicted>, now: i128) -> Seq<u64> {
    evicted.map_values(|e: Evicted| age_seconds(e.last_used, now))
}

/// Bytes added up, with a wrap around.
pub open spec fn bytes_after(bytes: u64, evicted: Seq<Evicted>) -> u64
    decreases evicted.len(),
{
    if evicted.len() == 0 {
        bytes
    } else {
        bytes_after(bytes, evicted.drop_last()).wrapping_add(evicted.last().size)
    }
}

/// Whether ages stand in order.
pub open spec fn is_ascending(ages: Seq<u64>) -> bool {
    forall|i: int, j: int| 0 <= i <= j < ages.len() ==> #[trigger] ages[i] <= #[trigger] ages[j]
}

/// Puts an age in its place.
pub fn insert_age(ages: &mut Vec<u64>, age: u64)
    requires
        is_ascending(old(ages)@),
    ensures
        is_ascending(final(ages)@),
        final(ages)@.to_multiset() == old(ages)@.to_multiset().insert(age),
{
    let ghost before = ages@;
    let n: usize = ages.len();
    let mut i: usize = n;
    while i > 0 && ages[i - 1] > age
        invariant
            i <= n,
            n == ages@.len(),
            before == ages@,
            forall|j: int| i <= j < n ==> #[trigger] before[j] > age,
        decreases i,
    {
        i = i - 1;
    }
    ages.insert(i, age);
    proof {
        vstd::seq_lib::to_multiset_insert(before, i as int, age);
        let after = ages@;
        assert(after =~= before.insert(i as int, age));
        assert forall|j: int, k: int| 0 <= j <= k < after.len() implies #[trigger] after[j]
            <= #[trigger] after[k] by {
            if j < i {
                assert(after[j] == before[j]);
                assert(before[j] <= before[i - 1]);
            } else if j > i {
                assert(after[j] == before[j - 1]);
            }
            if k < i {
                assert(after[k] == before[k]);
            } else if k > i {
                assert(after[k] == before[k - 1]);
            }
        }
    }
}

/// The bounds are an hour, six hours, a day, three days and seven days, and none behind them.
pub proof fn law_bounds_are_ages(class: int)
    ensures
        age_bound(0) == 60 * 60,
        age_bound(1) == 6 * age_bound(0),
        age_bound(2) == 24 * age_bound(0),
        age_bound(3) == 3 * age_bound(2),
        age_bound(4) == 7 * age_bound(2),
        class >= 5 ==> age_bound(class) == u64::MAX,
{
}

/// An age falls in the first class whose bound it does not exceed.
pub proof fn law_age_is_within_its_class(age: u64, class: int)
    requires
        0 <= class < 6,
    ensures
        0 <= age_class(age) < 6,
        age_class(age) <= class <==> age <= age_bound(class),
{
}

/// Each age is counted once, in its class.
pub proof fn law_ages_are_counted(ages: Seq<u64>, age: u64, class: int)
    ensures
        count_class(Seq::empty(), class) == 0,
        count_class(ages.push(age), class) == count_class(ages, class) + if age_class(age)
            == class {
            1nat
        } else {
            0
        },
{
    assert(ages.push(age).drop_last() =~= ages);
}

/// An age is the time since the last use in whole seconds: no more than went by, and less than
/// a second short of it, as long as it can be counted. Nothing that is still to come has one.
pub proof fn law_age_is_the_time_since(last_used: i128, now: i128)
    ensures
        now <= last_used ==> age_seconds(last_used, now) == 0,
        now > last_used ==> age_seconds(last_used, now) * 1000000000 <= now - last_used,
        now > last_used && age_seconds(last_used, now) < u64::MAX ==> now - last_used < (
        age_seconds(last_used, now) + 1) * 1000000000,
{
}

/// The ages of removed entries are those of each, one for one.
pub proof fn law_ages_are_those_of_the_entries(evicted: Seq<Evicted>, now: i128, i: int)
    requires
        0 <= i < evicted.len(),
    ensures
        ages_of(evicted, now).len() == evicted.len(),
        ages_of(evicted, now)[i] == age_seconds(evicted[i].last_used, now),
{
}

/// The bytes that were evicted are those of each entry added up.
pub proof fn law_evicted_bytes_add_up(bytes: u64, evicted: Seq<Evicted>, next: Evicted)
    ensures
        bytes_after(bytes, Seq::empty()) == bytes,
        bytes_after(bytes, evicted.push(next)) == bytes_after(bytes, evicted).wrapping_add(
            next.size,
        ),
{
    assert(evicted.push(next).drop_last() =~= evicted);
}

/// Of ages in order the first is the least, and the one in the middle has as many before it as
/// behind it, or one more.
pub proof fn law_middle_of_the_ages(ages: Seq<u64>, i: int)
    requires
        is_ascending(ages),
        0 <= i < ages.len(),
    ensures
        ages[0] <= ages[i],
        i <= ages.len() / 2 ==> ages[i] <= ages[(ages.len() / 2) as int],
        i >= ages.len() / 2 ==> ages[i] >= ages[(ages.len() / 2) as int],
{
}

} // verus!
