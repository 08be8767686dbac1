//! In-memory request counters for /v1/stats. Everything here is lost on restart by
//! design: the numbers are operational, not billing.

use crate::ages;
use crate::ages::{find_age, find_class, insert_age, EvictionAges};
use crate::clients;
use crate::clients::{Client, ClientStats, ClientView, MAX_CLIENTS};
use crate::error::Error;
use crate::history;
use crate::history::{get_bucket, put_bucket, recent, Bucket, BUCKET_SECONDS, HISTORY_SECONDS};
use crate::lru::Evicted;
use crate::text::str_equal;
use vstd::prelude::*;

verus! {

/// What a request came to.
#[derive(Clone, Copy, Debug, PartialEq, Eq, Structural)]
pub enum Event {
    Hit,
    Miss,
    Upload,
    Duplicate,
    Unauthorized,
}

/// Counters since the start. They wrap around.
#[derive(Clone, Copy, Debug)]
pub struct Totals {
    pub hits: u64,
    pub misses: u64,
    pub uploads: u64,
    pub duplicates: u64,
    pub unauthorized: u64,
    pub evictions: u64,
    pub bytes_served: u64,
    pub bytes_received: u64,
    /// Bytes uploaded since the last eviction pass; drives opportunistic eviction.
    pub bytes_since_evict: u64,
}

impl Totals {
    /// Counters that stand at zero.
    pub open spec fn zero() -> Totals {
        Totals {
            hits: 0,
            misses: 0,
            uploads: 0,
            duplicates: 0,
            unauthorized: 0,
            evictions: 0,
            bytes_served: 0,
            bytes_received: 0,
            bytes_since_evict: 0,
        }
    }

    /// The counters after an event with some bytes.
    pub open spec fn after(self, event: Event, bytes: u64) -> Totals {
        match event {
            Event::Hit => Totals {
                hits: self.hits.wrapping_add(1),
                bytes_served: self.bytes_served.wrapping_add(bytes),
                ..self
            },
            Event::Miss => Totals { misses: self.misses.wrapping_add(1), ..self },
            Event::Upload => Totals {
                uploads: self.uploads.wrapping_add(1),
                bytes_received: self.bytes_received.wrapping_add(bytes),
                bytes_since_evict: self.bytes_since_evict.wrapping_add(bytes),
                ..self
            },
            Event::Duplicate => Totals {
                duplicates: self.duplicates.wrapping_add(1),
                bytes_received: self.bytes_received.wrapping_add(bytes),
                bytes_since_evict: self.bytes_since_evict.wrapping_add(bytes),
                ..self
            },
            Event::Unauthorized => Totals {
                unauthorized: self.unauthorized.wrapping_add(1),
                ..self
            },
        }
    }
}

impl Default for Totals {
    fn default() -> (t: Totals)
        ensures
            t == Totals::zero(),
    {
        Totals {
            hits: 0,
            misses: 0,
            uploads: 0,
            duplicates: 0,
            unauthorized: 0,
            evictions: 0,
            bytes_served: 0,
            bytes_received: 0,
            bytes_since_evict: 0,
        }
    }
}

/// All that is counted.
#[derive(Debug)]
pub struct Metrics {
    pub totals: Totals,
    /// (size, entries) from the latest eviction pass.
    last_scan: (u64, usize),
    buckets: Vec<Bucket>,
    clients: Vec<ClientStats>,
    ages: Vec<u64>,
    bytes_evicted: u64,
}

impl Default for Metrics {
    fn default() -> (m: Metrics)
        ensures
            m.inv(),
            m.counts() == Totals::zero(),
            m.scanned() == (0u64, 0usize),
            m.minutes() == Seq::<Bucket>::empty(),
            m.rows() == Seq::<ClientStats>::empty(),
            m.ages() == Seq::<u64>::empty(),
            m.bytes_evicted() == 0,
    {
        Metrics {
            totals: Totals::default(),
            last_scan: (0, 0),
            buckets: Vec::new(),
            clients: Vec::new(),
            ages: Vec::new(),
            bytes_evicted: 0,
        }
    }
}

impl Metrics {
    /// The counters.
    pub closed spec fn counts(self) -> Totals {
        self.totals
    }

    /// The size and the number of entries from the latest eviction pass.
    pub closed spec fn scanned(self) -> (u64, usize) {
        self.last_scan
    }

    /// The history.
    pub closed spec fn minutes(self) -> Seq<Bucket> {
        self.buckets@
    }

    /// The table of clients.
    pub closed spec fn rows(self) -> Seq<ClientStats> {
        self.clients@
    }

    /// What is known of each client.
    pub open spec fn known(self) -> Map<Seq<char>, ClientView> {
        clients::table(self.rows())
    }

    /// The ages of the entries that were evicted.
    pub closed spec fn ages(self) -> Seq<u64> {
        self.ages@
    }

    pub closed spec fn bytes_evicted(self) -> u64 {
        self.bytes_evicted
    }

    /// The history is in order, no client occurs twice and not too many are known, and the
    /// ages are in order.
    pub open spec fn inv(self) -> bool {
        &&& history::is_chronological(self.minutes())
        &&& clients::are_distinct(self.rows())
        &&& self.rows().len() <= MAX_CLIENTS
        &&& ages::is_ascending(self.ages())
    }

    /// Whether only the counters differ.
    pub open spec fn differs_in_totals(self, other: Metrics) -> bool {
        &&& self.scanned() == other.scanned()
        &&& self.minutes() == other.minutes()
        &&& self.rows() == other.rows()
        &&& self.ages() == other.ages()
        &&& self.bytes_evicted() == other.bytes_evicted()
    }

    /// Counts an event.
    pub fn record(&mut self, event: Event, bytes: u64)
        ensures
            final(self).counts() == old(self).counts().after(event, bytes),
            final(self).differs_in_totals(*old(self)),
    {
        match event {
            Event::Hit => {
                self.totals.hits = self.totals.hits.wrapping_add(1);
                self.totals.bytes_served = self.totals.bytes_served.wrapping_add(bytes);
            },
            Event::Miss => {
                self.totals.misses = self.totals.misses.wrapping_add(1);
            },
            Event::Upload | Event::Duplicate => {
                if matches!(event, Event::Upload) {
                    self.totals.uploads = self.totals.uploads.wrapping_add(1);
                } else {
                    self.totals.duplicates = self.totals.duplicates.wrapping_add(1);
                }
                self.totals.bytes_received = self.totals.bytes_received.wrapping_add(bytes);
                self.totals.bytes_since_evict = self.totals.bytes_since_evict.wrapping_add(bytes);
            },
            Event::Unauthorized => {
                self.totals.unauthorized = self.totals.unauthorized.wrapping_add(1);
            },
        }
    }

    /// Counts an event of a client at a time, in seconds since the epoch: in the totals, in
    /// the history, and in the table of clients unless the client is new and the table is
    /// full.
    pub fn record_request(&mut self, event: Event, bytes: u64, client: &Client, now: u64)
        requires
            old(self).inv(),
        ensures
            final(self).inv(),
            final(self).counts() == old(self).counts().after(event, bytes),
            final(self).scanned() == old(self).scanned(),
            final(self).ages() == old(self).ages(),
            final(self).bytes_evicted() == old(self).bytes_evicted(),
            forall|s: u64| #[trigger]
                history::bucket_at(final(self).minutes(), s) == if !history::is_within(s, now, HISTORY_SECONDS) {
                    None
                } else if s == history::minute(now) {
                    Some(history::bucket_or_empty(old(self).minutes(), s).after(event, bytes))
                } else {
                    history::bucket_at(old(self).minutes(), s)
                },
            final(self).known() == old(self).known_after(event, bytes, *client, now),
            clients::addresses(final(self).rows()) == old(self).addresses_after(*client),
    {
        self.record(event, bytes);
        let start: u64 = now - now % BUCKET_SECONDS;
        let bucket = get_bucket(&self.buckets, start).noted(event, bytes);
        proof {
            history::lemma_bucket_at(self.buckets@, start);
        }
        put_bucket(&mut self.buckets, bucket);
        self.buckets = recent(&self.buckets, now, HISTORY_SECONDS);
        self.record_client(event, bytes, client, now);
    }

    /// What is known of each client after a request.
    pub open spec fn known_after(self, event: Event, bytes: u64, client: Client, now: u64) -> Map<
        Seq<char>,
        ClientView,
    > {
        let ip = client.ip@;
        let hostname = clients::optional_text(client.hostname);
        if self.known().contains_key(ip) {
            self.known().insert(ip, self.known()[ip].after(hostname, event, bytes, now))
        } else if self.rows().len() < MAX_CLIENTS {
            self.known().insert(ip, ClientView::fresh(now).after(hostname, event, bytes, now))
        } else {
            self.known()
        }
    }

    /// The addresses of the clients after a request. They stay where they are, and a new one
    /// comes last.
    pub open spec fn addresses_after(self, client: Client) -> Seq<Seq<char>> {
        if self.known().contains_key(client.ip@) || self.rows().len() >= MAX_CLIENTS {
            clients::addresses(self.rows())
        } else {
            clients::addresses(self.rows()).push(client.ip@)
        }
    }

    fn record_client(&mut self, event: Event, bytes: u64, client: &Client, now: u64)
        requires
            old(self).inv(),
        ensures
            final(self).inv(),
            final(self).counts() == old(self).counts(),
            final(self).scanned() == old(self).scanned(),
            final(self).minutes() == old(self).minutes(),
            final(self).ages() == old(self).ages(),
            final(self).bytes_evicted() == old(self).bytes_evicted(),
            final(self).known() == old(self).known_after(event, bytes, *client, now),
            clients::addresses(final(self).rows()) == old(self).addresses_after(*client),
    {
        let ghost before = self.clients@;
        proof {
            clients::lemma_table(before);
        }
        let n: usize = self.clients.len();
        let mut i: usize = 0;
        while i < n && !str_equal(self.clients[i].ip.as_str(), client.ip.as_str())
            invariant
                i <= n,
                n == self.clients@.len(),
                self.clients@ == before,
                forall|j: int| 0 <= j < i ==> (#[trigger] before[j]).ip@ != client.ip@,
            decreases n - i,
        {
            i = i + 1;
        }
        if i == n {
            if n >= MAX_CLIENTS {
                return ;
            }
            let mut row = ClientStats {
                ip: client.ip.clone(),
                hostname: None,
                hits: 0,
                misses: 0,
                uploads: 0,
                unauthorized: 0,
                bytes: 0,
                first_seen: now,
                last_seen: now,
            };
            row.note(client, event, bytes, now);
            self.clients.push(row);
            assert(self.clients@.drop_last() =~= before);
            assert(clients::addresses(self.clients@) =~= clients::addresses(before).push(client.ip@));
        } else {
            let mut row = self.clients.remove(i);
            row.note(client, event, bytes, now);
            proof {
                clients::lemma_table_update(before, i as int, row);
            }
            self.clients.insert(i, row);
            assert(self.clients@ =~= before.update(i as int, row));
            assert(clients::addresses(self.clients@) =~= clients::addresses(before));
        }
    }

    /// Resets what drives opportunistic eviction, as a pass begins: uploads that land
    /// during the scan may be missed by it, so their bytes must survive to trigger the next
    /// pass.
    pub fn begin_pass(&mut self)
        ensures
            final(self).counts() == (Totals { bytes_since_evict: 0, ..old(self).counts() }),
            final(self).differs_in_totals(*old(self)),
    {
        self.totals.bytes_since_evict = 0;
    }

    /// Records the outcome of an eviction pass.
    pub fn record_scan(&mut self, size: u64, entries: usize, evicted: &[Evicted])
        ensures
            final(self).counts() == (Totals {
                evictions: old(self).counts().evictions.wrapping_add(evicted@.len() as u64),
                ..old(self).counts()
            }),
            final(self).scanned() == (size, entries),
            final(self).minutes() == old(self).minutes(),
            final(self).rows() == old(self).rows(),
            final(self).ages() == old(self).ages(),
            final(self).bytes_evicted() == old(self).bytes_evicted(),
    {
        self.totals.evictions = self.totals.evictions.wrapping_add(evicted.len() as u64);
        self.last_scan = (size, entries);
    }

    /// Whether this is what some metrics become when the outcome of an eviction pass is
    /// recorded in them. The bytes uploaded since the pass began stay.
    pub open spec fn has_recorded(
        self,
        before: Metrics,
        size: u64,
        entries: usize,
        evicted: Seq<Evicted>,
        now: i128,
        seconds: u64,
    ) -> bool {
        &&& self.counts() == (Totals {
            evictions: before.counts().evictions.wrapping_add(evicted.len() as u64),
            ..before.counts()
        })
        &&& self.scanned() == (size, entries)
        &&& self.rows() == before.rows()
        &&& self.ages().to_multiset() == before.ages().to_multiset().add(
            ages::ages_of(evicted, now).to_multiset(),
        )
        &&& self.bytes_evicted() == ages::bytes_after(before.bytes_evicted(), evicted)
        &&& forall|s: u64| #[trigger]
            history::bucket_at(self.minutes(), s) == if !history::is_within(
                s,
                seconds,
                HISTORY_SECONDS,
            ) {
                None
            } else if s == history::minute(seconds) {
                Some(
                    Bucket { size: Some(size), ..history::bucket_or_empty(before.minutes(), s) },
                )
            } else {
                history::bucket_at(before.minutes(), s)
            }
    }

    /// Takes up how an eviction pass ended: the size and the entries that it left with what
    /// it removed are recorded. A pass that failed leaves everything as it was. Either way
    /// the bytes uploaded since it began stay, to count toward the next one.
    pub fn finish_pass(
        &mut self,
        outcome: Result<(u64, usize, Vec<Evicted>), Error>,
        now: i128,
        seconds: u64,
    )
        requires
            old(self).inv(),
        ensures
            final(self).inv(),
            final(self).counts().bytes_since_evict == old(self).counts().bytes_since_evict,
            match outcome {
                Ok((size, entries, evicted)) => final(self).has_recorded(
                    *old(self),
                    size,
                    entries,
                    evicted@,
                    now,
                    seconds,
                ),
                Err(_) => *final(self) == *old(self),
            },
    {
        match outcome {
            Ok((size, entries, evicted)) => self.record_pass(
                size,
                entries,
                evicted.as_slice(),
                now,
                seconds,
            ),
            Err(_) => {},
        }
    }

    /// Records the outcome of an eviction pass at a time, in nanoseconds since the epoch,
    /// with how long the removed entries had gone unused, and the size in the history.
    pub fn record_pass(
        &mut self,
        size: u64,
        entries: usize,
        evicted: &[Evicted],
        now: i128,
        seconds: u64,
    )
        requires
            old(self).inv(),
        ensures
            final(self).inv(),
            final(self).has_recorded(*old(self), size, entries, evicted@, now, seconds),
    {
        self.record_scan(size, entries, evicted);
        let start: u64 = seconds - seconds % BUCKET_SECONDS;
        let mut bucket = get_bucket(&self.buckets, start);
        proof {
            history::lemma_bucket_at(self.buckets@, start);
        }
        bucket.size = Some(size);
        put_bucket(&mut self.buckets, bucket);
        self.buckets = recent(&self.buckets, seconds, HISTORY_SECONDS);
        let ghost ages = ages::ages_of(evicted@, now);
        proof {
            ages.take(0).to_multiset_ensures();
            assert forall|a: u64| ages.take(0).to_multiset().count(a) == 0 by {
                assert(!ages.take(0).contains(a));
            }
            assert(self.ages@.to_multiset() =~= self.ages@.to_multiset().add(
                ages.take(0).to_multiset(),
            ));
        }
        for i in 0..evicted.len()
            invariant
                ages == ages::ages_of(evicted@, now),
                self.counts() == (Totals {
                    evictions: old(self).counts().evictions.wrapping_add(evicted@.len() as u64),
                    ..old(self).counts()
                }),
                self.scanned() == (size, entries),
                self.rows() == old(self).rows(),
                self.inv(),
                self.ages@.to_multiset() == old(self).ages().to_multiset().add(
                    ages.take(i as int).to_multiset(),
                ),
                self.bytes_evicted() == ages::bytes_after(
                    old(self).bytes_evicted(),
                    evicted@.take(i as int),
                ),
                forall|s: u64| #[trigger]
                    history::bucket_at(self.minutes(), s) == if !history::is_within(s, seconds, HISTORY_SECONDS) {
                        None
                    } else if s == history::minute(seconds) {
                        Some(
                            Bucket { size: Some(size), ..history::bucket_or_empty(old(self).minutes(), s) },
                        )
                    } else {
                        history::bucket_at(old(self).minutes(), s)
                    },
        {
            let age = find_age(evicted[i].last_used, now);
            proof {
                assert(ages.take(i + 1) =~= ages.take(i as int).push(ages[i as int]));
                vstd::seq_lib::to_multiset_build(ages.take(i as int), ages[i as int]);
                assert(evicted@.take(i + 1).drop_last() =~= evicted@.take(i as int));
            }
            insert_age(&mut self.ages, age);
            self.bytes_evicted = self.bytes_evicted.wrapping_add(evicted[i].size);
            assert(self.ages@.to_multiset() =~= old(self).ages().to_multiset().add(
                ages.take(i + 1).to_multiset(),
            ));
        }
        assert(ages.take(evicted@.len() as int) =~= ages);
        assert(evicted@.take(evicted@.len() as int) =~= evicted@);
    }

    /// The counters.
    pub fn totals(&self) -> (t: Totals)
        ensures
            t == self.counts(),
    {
        self.totals
    }

    /// The size and the number of entries from the latest eviction pass.
    pub fn last_scan(&self) -> (r: (u64, usize))
        ensures
            r == self.scanned(),
    {
        self.last_scan
    }

    /// The minutes that overlap the last so many seconds.
    pub fn history(&self, seconds: u64, now: u64) -> (r: Vec<Bucket>)
        requires
            self.inv(),
        ensures
            history::is_chronological(r@),
            forall|s: u64| #[trigger]
                history::bucket_at(r@, s) == if history::is_within(s, now, seconds) {
                    history::bucket_at(self.minutes(), s)
                } else {
                    None
                },
    {
        recent(&self.buckets, now, seconds)
    }

    /// The table of clients.
    pub fn clients(&self) -> (rows: &Vec<ClientStats>)
        ensures
            rows@ == self.rows(),
    {
        &self.clients
    }

    /// How long entries had gone unused when they were evicted.
    pub fn eviction_ages(&self) -> (r: EvictionAges)
        ensures
            forall|c: int| 0 <= c < 6 ==> #[trigger] r.buckets@[c] == ages::count_class(self.ages(), c),
            self.ages().len() <= usize::MAX,
            r.bytes_evicted == self.bytes_evicted(),
            r.min_seconds == if self.ages().len() == 0 {
                None
            } else {
                Some(self.ages()[0])
            },
            r.median_seconds == if self.ages().len() == 0 {
                None
            } else {
                Some(self.ages()[(self.ages().len() / 2) as int])
            },
    {
        let n: usize = self.ages.len();
        let mut buckets: [u64; 6] = [0, 0, 0, 0, 0, 0];
        for i in 0..n
            invariant
                n == self.ages@.len(),
                forall|c: int|
                    0 <= c < 6 ==> #[trigger] buckets@[c] == ages::count_class(
                        self.ages@.take(i as int),
                        c,
                    ),
        {
            let class = find_class(self.ages[i]);
            proof {
                ages::law_ages_fall_in_one_class(self.ages@.take(i as int));
                assert(self.ages@.take(i + 1).drop_last() =~= self.ages@.take(i as int));
            }
            buckets[class] = buckets[class] + 1;
        }
        assert(self.ages@.take(n as int) =~= self.ages@);
        EvictionAges {
            buckets,
            bytes_evicted: self.bytes_evicted,
            min_seconds: if n == 0 {
                None
            } else {
                Some(self.ages[0])
            },
            median_seconds: if n == 0 {
                None
            } else {
                Some(self.ages[n / 2])
            },
        }
    }
}

/// An event goes up in one counter, the one that it is, by one, and in no other. Bytes that
/// were sent count as served; bytes that were received count as received and toward the next
/// eviction pass.
pub proof fn law_event_is_counted_once(t: Totals, event: Event, bytes: u64)
    ensures
        ({
            let u = t.after(event, bytes);
            let received = if event is Upload || event is Duplicate {
                bytes
            } else {
                0
            };
            &&& u.hits == t.hits.wrapping_add(
                if event is Hit {
                    1
                } else {
                    0
                },
            )
            &&& u.misses == t.misses.wrapping_add(
                if event is Miss {
                    1
                } else {
                    0
                },
            )
            &&& u.uploads == t.uploads.wrapping_add(
                if event is Upload {
                    1
                } else {
                    0
                },
            )
            &&& u.duplicates == t.duplicates.wrapping_add(
                if event is Duplicate {
                    1
                } else {
                    0
                },
            )
            &&& u.unauthorized == t.unauthorized.wrapping_add(
                if event is Unauthorized {
                    1
                } else {
                    0
                },
            )
            &&& u.bytes_served == t.bytes_served.wrapping_add(
                if event is Hit {
                    bytes
                } else {
                    0
                },
            )
            &&& u.bytes_received == t.bytes_received.wrapping_add(received)
            &&& u.bytes_since_evict == t.bytes_since_evict.wrapping_add(received)
            &&& u.evictions == t.evictions
        }),
{
}

/// Nothing is counted at the start.
pub proof fn law_counters_start_at_zero()
    ensures
        ({
            let t = Totals::zero();
            &&& t.hits == 0 && t.misses == 0 && t.uploads == 0 && t.duplicates == 0
            &&& t.unauthorized == 0 && t.evictions == 0 && t.bytes_served == 0
            &&& t.bytes_received == 0 && t.bytes_since_evict == 0
        }),
{
}

/// A request changes what is known of the client that made it, and of no other. A client that
/// is not known is taken up as long as there are fewer than 4096.
pub proof fn law_request_is_that_of_its_client(
    m: Metrics,
    event: Event,
    bytes: u64,
    client: Client,
    now: u64,
    other: Seq<char>,
)
    ensures
        ({
            let before = m.known();
            let after = m.known_after(event, bytes, client, now);
            let ip = client.ip@;
            let hostname = clients::optional_text(client.hostname);
            &&& other != ip ==> after.contains_key(other) == before.contains_key(other)
            &&& other != ip && before.contains_key(other) ==> after[other] == before[other]
            &&& before.contains_key(ip) ==> after.contains_key(ip) && after[ip]
                == before[ip].after(hostname, event, bytes, now)
            &&& !before.contains_key(ip) ==> (after.contains_key(ip) <==> m.rows().len() < 4096)
            &&& !before.contains_key(ip) && after.contains_key(ip) ==> after[ip]
                == ClientView::fresh(now).after(hostname, event, bytes, now)
        }),
{
}

/// Clients keep their places in the table, and a new one comes last as long as there are fewer
/// than 4096.
pub proof fn law_clients_keep_their_places(m: Metrics, client: Client, i: int)
    ensures
        ({
            let after = m.addresses_after(client);
            let new = !m.known().contains_key(client.ip@) && m.rows().len() < 4096;
            &&& 0 <= i < m.rows().len() ==> after[i] == m.rows()[i].ip@
            &&& new ==> after.len() == m.rows().len() + 1 && after.last() == client.ip@
            &&& !new ==> after.len() == m.rows().len()
        }),
{
}

/// The text of an optional name is that of the name.
pub proof fn law_optional_text_is_that_of_the_name(name: String)
    ensures
        clients::optional_text(Some(name)) == Some(name@),
        clients::optional_text(None) is None,
{
}

/// What holds of metrics at all times: the minutes of the history follow each other, no two
/// rows are of one client, there are not too many, and ages stand in order.
pub proof fn law_metrics_are_in_order(m: Metrics, i: int, j: int)
    requires
        m.inv(),
        0 <= i < j,
    ensures
        j < m.minutes().len() ==> m.minutes()[i].start < m.minutes()[j].start,
        j < m.rows().len() ==> m.rows()[i].ip@ != m.rows()[j].ip@,
        m.rows().len() <= 4096,
        j < m.ages().len() ==> m.ages()[i] <= m.ages()[j],
{
}

/// What is recorded of a pass: the entries that it removed are counted, their ages and bytes
/// added to those before, the size that it left is the last one known and stands in the
/// history at the minute in which it ended. Everything else stays.
pub proof fn law_pass_is_recorded(
    after: Metrics,
    before: Metrics,
    size: u64,
    entries: usize,
    evicted: Seq<Evicted>,
    now: i128,
    seconds: u64,
    start: u64,
)
    requires
        after.has_recorded(before, size, entries, evicted, now, seconds),
    ensures
        after.counts().evictions == before.counts().evictions.wrapping_add(evicted.len() as u64),
        after.counts().hits == before.counts().hits,
        after.counts().misses == before.counts().misses,
        after.counts().uploads == before.counts().uploads,
        after.counts().duplicates == before.counts().duplicates,
        after.counts().unauthorized == before.counts().unauthorized,
        after.counts().bytes_served == before.counts().bytes_served,
        after.counts().bytes_received == before.counts().bytes_received,
        after.counts().bytes_since_evict == before.counts().bytes_since_evict,
        after.scanned() == (size, entries),
        after.rows() == before.rows(),
        after.ages().len() == before.ages().len() + evicted.len(),
        forall|age: u64| #[trigger] before.ages().contains(age) ==> after.ages().contains(age),
        forall|i: int|
            0 <= i < evicted.len() ==> after.ages().contains(
                ages::age_seconds((#[trigger] evicted[i]).last_used, now),
            ),
        after.bytes_evicted() == ages::bytes_after(before.bytes_evicted(), evicted),
        ({
            let b = history::bucket_or_empty(after.minutes(), history::minute(seconds));
            let a = history::bucket_or_empty(before.minutes(), history::minute(seconds));
            &&& b.size == Some(size)
            &&& b.hits == a.hits && b.misses == a.misses && b.uploads == a.uploads
            &&& b.bytes == a.bytes
        }),
        start != history::minute(seconds) && history::is_within(start, seconds, HISTORY_SECONDS)
            ==> history::bucket_at(after.minutes(), start) == history::bucket_at(
            before.minutes(),
            start,
        ),
{
    let new = ages::ages_of(evicted, now);
    after.ages().to_multiset_ensures();
    before.ages().to_multiset_ensures();
    new.to_multiset_ensures();
    assert(after.ages().to_multiset().len() == before.ages().to_multiset().len()
        + new.to_multiset().len());
    assert forall|i: int| 0 <= i < evicted.len() implies after.ages().contains(
        ages::age_seconds((#[trigger] evicted[i]).last_used, now),
    ) by {
        let age = ages::age_seconds(evicted[i].last_used, now);
        assert(new[i] == age);
        assert(new.contains(age));
        assert(new.to_multiset().count(age) > 0);
        assert(after.ages().to_multiset().count(age) > 0);
    }
    assert forall|age: u64| #[trigger] before.ages().contains(age) implies after.ages().contains(
        age,
    ) by {
        assert(before.ages().to_multiset().count(age) > 0);
        assert(after.ages().to_multiset().count(age) > 0);
    }
    history::law_window_holds_its_minutes(seconds, seconds, HISTORY_SECONDS);
    assert(history::bucket_at(after.minutes(), history::minute(seconds)) is Some);
}

/// Where only the counters differ, everything else is the same: the last scan, the history,
/// the clients, and what was evicted.
pub proof fn law_counting_changes_the_counters_only(m: Metrics, n: Metrics)
    requires
        m.differs_in_totals(n),
    ensures
        m.scanned() == n.scanned(),
        m.minutes() == n.minutes(),
        m.rows() == n.rows(),
        m.known() == n.known(),
        m.ages() == n.ages(),
        m.bytes_evicted() == n.bytes_evicted(),
{
}

/// What is known of a client is what its row shows, and there is a row for each.
pub proof fn law_known_clients_have_rows(m: Metrics, i: int, ip: Seq<char>)
    requires
        m.inv(),
    ensures
        0 <= i < m.rows().len() ==> m.known().contains_key(m.rows()[i].ip@) && m.known()[
            m.rows()[i].ip@
        ] == m.rows()[i]@,
        m.known().contains_key(ip) ==> exists|j: int|
            0 <= j < m.rows().len() && (#[trigger] m.rows()[j]).ip@ == ip,
{
    clients::lemma_table(m.rows());
}

} // verus!
