//! Read-only endpoints: statistics for the dashboard, and Prometheus text.

use crate::ages;
use crate::ages::{age_bounds, EvictionAges};
use crate::history;
use crate::history::{Bucket, BUCKET_SECONDS, HISTORY_SECONDS};
use crate::metrics::Metrics;
use crate::text;
use crate::text::write_decimal;
use vstd::prelude::*;

verus! {

/// Totals since start.
#[derive(Clone, Copy, Debug)]
pub struct Stats {
    pub uptime_seconds: u64,
    pub capacity_bytes: u64,
    pub size_bytes: u64,
    pub entries: usize,
    pub hits: u64,
    pub misses: u64,
    pub uploads: u64,
    pub duplicates: u64,
    pub unauthorized: u64,
    pub evictions: u64,
    pub bytes_served: u64,
    pub bytes_received: u64,
    pub eviction_ages: EvictionAges,
    pub eviction_age_bounds_seconds: [u64; 6],
}

/// The totals, with what the server knows beside them.
pub fn stats(metrics: &Metrics, capacity_bytes: u64, uptime_seconds: u64) -> (s: Stats)
    ensures
        s.uptime_seconds == uptime_seconds,
        s.capacity_bytes == capacity_bytes,
        (s.size_bytes, s.entries) == metrics.scanned(),
        s.hits == metrics.counts().hits,
        s.misses == metrics.counts().misses,
        s.uploads == metrics.counts().uploads,
        s.duplicates == metrics.counts().duplicates,
        s.unauthorized == metrics.counts().unauthorized,
        s.evictions == metrics.counts().evictions,
        s.bytes_served == metrics.counts().bytes_served,
        s.bytes_received == metrics.counts().bytes_received,
        s.eviction_ages.bytes_evicted == metrics.bytes_evicted(),
        forall|c: int|
            0 <= c < 6 ==> #[trigger] s.eviction_ages.buckets@[c] == ages::count_class(
                metrics.ages(),
                c,
            ),
        s.eviction_ages.min_seconds == if metrics.ages().len() == 0 {
            None
        } else {
            Some(metrics.ages()[0])
        },
        s.eviction_ages.median_seconds == if metrics.ages().len() == 0 {
            None
        } else {
            Some(metrics.ages()[(metrics.ages().len() / 2) as int])
        },
        forall|c: int|
            0 <= c < 6 ==> #[trigger] s.eviction_age_bounds_seconds@[c] == ages::age_bound(c),
{
    let totals = metrics.totals();
    let (size_bytes, entries) = metrics.last_scan();
    Stats {
        uptime_seconds,
        capacity_bytes,
        size_bytes,
        entries,
        hits: totals.hits,
        misses: totals.misses,
        uploads: totals.uploads,
        duplicates: totals.duplicates,
        unauthorized: totals.unauthorized,
        evictions: totals.evictions,
        bytes_served: totals.bytes_served,
        bytes_received: totals.bytes_received,
        eviction_ages: metrics.eviction_ages(),
        eviction_age_bounds_seconds: age_bounds(),
    }
}

/// What is asked of the history.
#[derive(Clone, Copy, Debug)]
pub struct HistoryQuery {
    /// Window in seconds, at most 24 hours.
    pub seconds: u64,
}

/// The window where none is asked for.
pub fn default_window() -> (seconds: u64)
    ensures
        seconds == 3600,
{
    3600
}

/// The history of a window.
#[derive(Debug)]
pub struct History {
    pub bucket_seconds: u64,
    pub now: u64,
    pub buckets: Vec<Bucket>,
}

/// The window that a query is answered for.
pub open spec fn window(query: HistoryQuery) -> u64 {
    if query.seconds < HISTORY_SECONDS {
        query.seconds
    } else {
        HISTORY_SECONDS
    }
}

/// The history of the window that is asked for, at most 24 hours.
pub fn history(metrics: &Metrics, query: HistoryQuery, now: u64) -> (h: History)
    requires
        metrics.inv(),
    ensures
        h.bucket_seconds == BUCKET_SECONDS,
        h.now == now,
        history::is_chronological(h.buckets@),
        forall|s: u64| #[trigger]
            history::bucket_at(h.buckets@, s) == if history::is_within(s, now, window(query)) {
                history::bucket_at(metrics.minutes(), s)
            } else {
                None
            },
{
    let seconds: u64 = if query.seconds < HISTORY_SECONDS {
        query.seconds
    } else {
        HISTORY_SECONDS
    };
    History { bucket_seconds: BUCKET_SECONDS, now, buckets: metrics.history(seconds, now) }
}

/// One number for Prometheus: its name, what it is, and its value.
#[derive(Clone, Copy)]
pub struct Sample {
    pub name: &'static str,
    pub help: &'static str,
    pub value: u64,
}

/// The lines of a number of a kind.
pub open spec fn sample_text(kind: Seq<char>, s: Sample) -> Seq<char> {
    "# HELP halide_cache_"@ + s.name@ + " "@ + s.help@ + "\n# TYPE halide_cache_"@ + s.name@ + " "@
        + kind + "\nhalide_cache_"@ + s.name@ + " "@ + text::decimal(s.value as nat) + "\n"@
}

/// The lines of some numbers of a kind.
pub open spec fn samples_text(kind: Seq<char>, samples: Seq<Sample>) -> Seq<char>
    decreases samples.len(),
{
    if samples.len() == 0 {
        Seq::empty()
    } else {
        samples_text(kind, samples.drop_last()) + sample_text(kind, samples.last())
    }
}

/// The numbers that go up and down.
pub open spec fn gauges(metrics: Metrics, capacity: u64, uptime: u64) -> Seq<Sample> {
    seq![
        Sample {
            name: "capacity_bytes",
            help: "Configured maximum cache size",
            value: capacity,
        },
        Sample {
            name: "size_bytes",
            help: "Cache size at the last eviction pass",
            value: metrics.scanned().0,
        },
        Sample {
            name: "entries",
            help: "Entries at the last eviction pass",
            value: metrics.scanned().1 as u64,
        },
        Sample { name: "uptime_seconds", help: "Seconds since start", value: uptime },
    ]
}

/// The numbers that only go up.
pub open spec fn counters(metrics: Metrics) -> Seq<Sample> {
    let t = metrics.counts();
    seq![
        Sample { name: "hits_total", help: "Blob downloads that found an entry", value: t.hits },
        Sample {
            name: "misses_total",
            help: "Blob downloads that found nothing",
            value: t.misses,
        },
        Sample { name: "uploads_total", help: "New entries uploaded", value: t.uploads },
        Sample {
            name: "duplicate_uploads_total",
            help: "Uploads replacing an existing entry",
            value: t.duplicates,
        },
        Sample {
            name: "unauthorized_uploads_total",
            help: "Uploads rejected for a missing or wrong token",
            value: t.unauthorized,
        },
        Sample {
            name: "evictions_total",
            help: "Entries removed by the LRU",
            value: t.evictions,
        },
        Sample {
            name: "evicted_bytes_total",
            help: "Bytes removed by the LRU",
            value: metrics.bytes_evicted(),
        },
        Sample {
            name: "served_bytes_total",
            help: "Bytes sent to clients",
            value: t.bytes_served,
        },
        Sample {
            name: "received_bytes_total",
            help: "Bytes received from clients",
            value: t.bytes_received,
        },
    ]
}

/// How many ages fall in the classes before one.
pub open spec fn count_before(all: Seq<u64>, class: nat) -> nat
    decreases class,
{
    if class == 0 {
        0
    } else {
        count_before(all, (class - 1) as nat) + ages::count_class(all, class - 1)
    }
}

/// The label of a bound.
pub open spec fn bound_text(class: int) -> Seq<char> {
    if ages::age_bound(class) == u64::MAX {
        "+Inf"@
    } else {
        text::decimal(ages::age_bound(class) as nat)
    }
}

/// The lines of the classes of ages before one. Each counts the ages up to its bound.
pub open spec fn classes_text(all: Seq<u64>, class: nat) -> Seq<char>
    decreases class,
{
    if class == 0 {
        Seq::empty()
    } else {
        classes_text(all, (class - 1) as nat) + ("halide_cache_eviction_age_seconds_bucket{le=\""@
            + bound_text(class - 1) + "\"} "@ + text::decimal(count_before(all, class)) + "\n"@)
    }
}

/// The whole of the Prometheus text.
pub open spec fn prometheus_text(metrics: Metrics, capacity: u64, uptime: u64) -> Seq<char> {
    samples_text("gauge"@, gauges(metrics, capacity, uptime)) + samples_text(
        "counter"@,
        counters(metrics),
    )
        + "# HELP halide_cache_eviction_age_seconds Seconds since last use when an entry was evicted\n# TYPE halide_cache_eviction_age_seconds histogram\n"@
        + classes_text(metrics.ages(), 6) + "halide_cache_eviction_age_seconds_count "@
        + text::decimal(count_before(metrics.ages(), 6)) + "\n"@
}

/// The media type of the Prometheus text.
pub const PROMETHEUS_TYPE: &'static str = "text/plain; version=0.0.4; charset=utf-8";

fn put_samples(out: &mut String, kind: &str, samples: &[Sample])
    ensures
        final(out)@ == old(out)@ + samples_text(kind@, samples@),
{
    let ghost before = out@;
    assert(samples@.take(0) =~= Seq::empty());
    assert(before + samples_text(kind@, samples@.take(0)) =~= before);
    for i in 0..samples.len()
        invariant
            out@ == before + samples_text(kind@, samples@.take(i as int)),
    {
        let s = samples[i];
        let ghost start = out@;
        out.append("# HELP halide_cache_");
        out.append(s.name);
        out.append(" ");
        out.append(s.help);
        out.append("\n# TYPE halide_cache_");
        out.append(s.name);
        out.append(" ");
        out.append(kind);
        out.append("\nhalide_cache_");
        out.append(s.name);
        out.append(" ");
        out.append(write_decimal(s.value).as_str());
        out.append("\n");
        assert(out@ =~= start + sample_text(kind@, s));
        assert(samples@.take(i + 1).drop_last() =~= samples@.take(i as int));
        assert(out@ =~= before + samples_text(kind@, samples@.take(i + 1)));
    }
    assert(samples@.take(samples@.len() as int) =~= samples@);
}

proof fn lemma_count_before(all: Seq<u64>, class: nat)
    ensures
        count_before(all, class) <= all.len(),
        class >= 6 ==> count_before(all, class) == all.len(),
    decreases all.len(),
{
    if all.len() > 0 {
        lemma_count_before(all.drop_last(), class);
        lemma_count_before_last(all, class);
    } else {
        lemma_count_before_none(all, class);
    }
}

/// Prometheus text exposition format, for scraping.
pub fn prometheus(metrics: &Metrics, capacity: u64, uptime: u64) -> (out: String)
    ensures
        out@ == prometheus_text(*metrics, capacity, uptime),
{
    let totals = metrics.totals();
    let (size, entries) = metrics.last_scan();
    let evicted = metrics.eviction_ages();
    let gauge_samples = [
        Sample { name: "capacity_bytes", help: "Configured maximum cache size", value: capacity },
        Sample { name: "size_bytes", help: "Cache size at the last eviction pass", value: size },
        Sample {
            name: "entries",
            help: "Entries at the last eviction pass",
            value: entries as u64,
        },
        Sample { name: "uptime_seconds", help: "Seconds since start", value: uptime },
    ];
    let counter_samples = [
        Sample {
            name: "hits_total",
            help: "Blob downloads that found an entry",
            value: totals.hits,
        },
        Sample {
            name: "misses_total",
            help: "Blob downloads that found nothing",
            value: totals.misses,
        },
        Sample { name: "uploads_total", help: "New entries uploaded", value: totals.uploads },
        Sample {
            name: "duplicate_uploads_total",
            help: "Uploads replacing an existing entry",
            value: totals.duplicates,
        },
        Sample {
            name: "unauthorized_uploads_total",
            help: "Uploads rejected for a missing or wrong token",
            value: totals.unauthorized,
        },
        Sample {
            name: "evictions_total",
            help: "Entries removed by the LRU",
            value: totals.evictions,
        },
        Sample {
            name: "evicted_bytes_total",
            help: "Bytes removed by the LRU",
            value: evicted.bytes_evicted,
        },
        Sample {
            name: "served_bytes_total",
            help: "Bytes sent to clients",
            value: totals.bytes_served,
        },
        Sample {
            name: "received_bytes_total",
            help: "Bytes received from clients",
            value: totals.bytes_received,
        },
    ];
    assert(gauge_samples@ =~= gauges(*metrics, capacity, uptime));
    assert(counter_samples@ =~= counters(*metrics));
    let mut out = String::new();
    put_samples(&mut out, "gauge", gauge_samples.as_slice());
    put_samples(&mut out, "counter", counter_samples.as_slice());
    out.append(
        "# HELP halide_cache_eviction_age_seconds Seconds since last use when an entry was evicted\n# TYPE halide_cache_eviction_age_seconds histogram\n",
    );
    let bounds = age_bounds();
    let ghost head = out@;
    let ghost all = metrics.ages();
    let mut cumulative: u64 = 0;
    assert forall|c: nat| c <= 6 implies #[trigger] count_before(all, c) <= all.len() by {
        lemma_count_before(all, c);
    }
    assert(head + classes_text(all, 0) =~= head);
    for i in 0..6
        invariant
            all == metrics.ages(),
            all.len() <= usize::MAX,
            cumulative == count_before(all, i as nat),
            forall|c: nat| c <= 6 ==> #[trigger] count_before(all, c) <= all.len(),
            forall|c: int|
                0 <= c < 6 ==> #[trigger] evicted.buckets@[c] == ages::count_class(all, c),
            forall|c: int| 0 <= c < 6 ==> #[trigger] bounds@[c] == ages::age_bound(c),
            out@ == head + classes_text(all, i as nat),
    {
        let ghost start = out@;
        assert(count_before(all, (i + 1) as nat) <= all.len());
        cumulative = cumulative + evicted.buckets[i];
        out.append("halide_cache_eviction_age_seconds_bucket{le=\"");
        if bounds[i] == u64::MAX {
            out.append("+Inf");
        } else {
            out.append(write_decimal(bounds[i]).as_str());
        }
        out.append("\"} ");
        out.append(write_decimal(cumulative).as_str());
        out.append("\n");
        assert(out@ =~= start + ("halide_cache_eviction_age_seconds_bucket{le=\""@ + bound_text(
            i as int,
        ) + "\"} "@ + text::decimal(count_before(all, (i + 1) as nat)) + "\n"@));
        assert(out@ =~= head + classes_text(all, (i + 1) as nat));
    }
    out.append("halide_cache_eviction_age_seconds_count ");
    out.append(write_decimal(cumulative).as_str());
    out.append("\n");
    out
}

/// How many ages are at most a bound.
pub open spec fn count_up_to(all: Seq<u64>, bound: u64) -> nat
    decreases all.len(),
{
    if all.len() == 0 {
        0
    } else {
        count_up_to(all.drop_last(), bound) + if all.last() <= bound {
            1nat
        } else {
            0
        }
    }
}

/// The histogram is cumulative: the line of a bound counts the ages that are at most the
/// bound.
pub proof fn law_histogram_is_cumulative(all: Seq<u64>, class: nat)
    requires
        class < 6,
    ensures
        count_before(all, class + 1) == count_up_to(all, ages::age_bound(class as int)),
    decreases all.len(),
{
    if all.len() > 0 {
        law_histogram_is_cumulative(all.drop_last(), class);
        lemma_count_before_last(all, class + 1);
    } else {
        lemma_count_before_none(all, class + 1);
    }
}

proof fn lemma_count_before_none(all: Seq<u64>, class: nat)
    requires
        all.len() == 0,
    ensures
        count_before(all, class) == 0,
    decreases class,
{
    if class > 0 {
        lemma_count_before_none(all, (class - 1) as nat);
    }
}

proof fn lemma_count_before_last(all: Seq<u64>, class: nat)
    requires
        all.len() > 0,
    ensures
        count_before(all, class) == count_before(all.drop_last(), class) + if ages::age_class(
            all.last(),
        ) < class {
            1nat
        } else {
            0
        },
    decreases class,
{
    if class > 0 {
        lemma_count_before_last(all, (class - 1) as nat);
    }
}

/// The histogram counts every eviction whose age was recorded: its last class holds as
/// many as there are ages.
pub proof fn law_histogram_counts_all(metrics: Metrics)
    ensures
        count_before(metrics.ages(), 6) == metrics.ages().len(),
        bound_text(5) == "+Inf"@,
{
    lemma_count_before(metrics.ages(), 6);
}

/// The window that a query is answered for is the one that is asked for, up to a day.
pub proof fn law_window_is_at_most_a_day(query: HistoryQuery)
    ensures
        query.seconds <= 86400 ==> window(query) == query.seconds,
        query.seconds >= 86400 ==> window(query) == 86400,
{
}

/// Whether a text holds the line of a number.
pub open spec fn shows(s: Seq<char>, name: Seq<char>, value: nat) -> bool {
    text::occurs(s, "\nhalide_cache_"@ + name + " "@ + text::decimal(value) + "\n"@)
}

proof fn lemma_occurs_within(x: Seq<char>, s: Seq<char>, y: Seq<char>, p: Seq<char>)
    requires
        text::occurs(s, p),
    ensures
        text::occurs(x + s + y, p),
{
    text::law_found_pattern_is_there(s, 0, p);
    let (a, b) = choose|a: Seq<char>, b: Seq<char>| s == #[trigger] (a + p + b);
    assert(x + s + y =~= (x + a) + p + (b + y));
    text::law_pattern_is_found(x + a, p, b + y);
}

proof fn lemma_samples_from(kind: Seq<char>, samples: Seq<Sample>, i: int, p: Seq<char>)
    requires
        0 <= i < samples.len(),
        text::occurs(sample_text(kind, samples[i]), p),
    ensures
        text::occurs(samples_text(kind, samples), p),
    decreases samples.len(),
{
    let init = samples.drop_last();
    let before = samples_text(kind, init);
    let last = sample_text(kind, samples.last());
    let none = Seq::<char>::empty();
    if i == samples.len() - 1 {
        lemma_occurs_within(before, last, none, p);
        assert(before + last + none =~= before + last);
    } else {
        assert(init[i] == samples[i]);
        lemma_samples_from(kind, init, i, p);
        lemma_occurs_within(none, before, last, p);
        assert(none + before + last =~= before + last);
    }
}

/// Each number is shown under its name with its value, and said to be of its kind.
pub proof fn law_samples_are_shown(kind: Seq<char>, samples: Seq<Sample>, i: int)
    requires
        0 <= i < samples.len(),
    ensures
        shows(samples_text(kind, samples), samples[i].name@, samples[i].value as nat),
        text::occurs(
            samples_text(kind, samples),
            "\n# TYPE halide_cache_"@ + samples[i].name@ + " "@ + kind,
        ),
        text::occurs(
            samples_text(kind, samples),
            "# HELP halide_cache_"@ + samples[i].name@ + " "@ + samples[i].help@,
        ),
{
    let s = samples[i];
    let all = sample_text(kind, s);
    let none = Seq::<char>::empty();
    let help = "# HELP halide_cache_"@ + s.name@ + " "@ + s.help@;
    let type_line = "\n# TYPE halide_cache_"@ + s.name@ + " "@ + kind;
    let line = "\nhalide_cache_"@ + s.name@ + " "@ + text::decimal(s.value as nat) + "\n"@;
    assert(all =~= help + type_line + line);
    assert(all =~= (help + type_line) + line + none);
    assert(all =~= none + help + (type_line + line));
    text::law_pattern_is_found(help + type_line, line, none);
    text::law_pattern_is_found(help, type_line, line);
    text::law_pattern_is_found(none, help, type_line + line);
    lemma_samples_from(kind, samples, i, line);
    lemma_samples_from(kind, samples, i, type_line);
    lemma_samples_from(kind, samples, i, help);
}

proof fn lemma_gauge_is_shown(metrics: Metrics, capacity: u64, uptime: u64, i: int)
    requires
        0 <= i < gauges(metrics, capacity, uptime).len(),
    ensures
        ({
            let s = gauges(metrics, capacity, uptime)[i];
            shows(prometheus_text(metrics, capacity, uptime), s.name@, s.value as nat)
        }),
{
    let samples = gauges(metrics, capacity, uptime);
    let s = samples[i];
    let part = samples_text("gauge"@, samples);
    let all = prometheus_text(metrics, capacity, uptime);
    law_samples_are_shown("gauge"@, samples, i);
    let p = "\nhalide_cache_"@ + s.name@ + " "@ + text::decimal(s.value as nat) + "\n"@;
    let none = Seq::<char>::empty();
    let rest = all.skip(part.len() as int);
    assert(all =~= none + part + rest);
    lemma_occurs_within(none, part, rest, p);
}

proof fn lemma_counter_is_shown(metrics: Metrics, capacity: u64, uptime: u64, i: int)
    requires
        0 <= i < counters(metrics).len(),
    ensures
        ({
            let s = counters(metrics)[i];
            shows(prometheus_text(metrics, capacity, uptime), s.name@, s.value as nat)
        }),
{
    let samples = counters(metrics);
    let s = samples[i];
    let before = samples_text("gauge"@, gauges(metrics, capacity, uptime));
    let part = samples_text("counter"@, samples);
    let all = prometheus_text(metrics, capacity, uptime);
    law_samples_are_shown("counter"@, samples, i);
    let p = "\nhalide_cache_"@ + s.name@ + " "@ + text::decimal(s.value as nat) + "\n"@;
    let rest = all.skip((before.len() + part.len()) as int);
    assert(all =~= before + part + rest);
    lemma_occurs_within(before, part, rest, p);
}

/// The text for Prometheus shows every number that is kept, under its name.
pub proof fn law_prometheus_shows_all(metrics: Metrics, capacity: u64, uptime: u64)
    ensures
        ({
            let s = prometheus_text(metrics, capacity, uptime);
            let t = metrics.counts();
            &&& shows(s, "capacity_bytes"@, capacity as nat)
            &&& shows(s, "size_bytes"@, metrics.scanned().0 as nat)
            &&& shows(s, "entries"@, (metrics.scanned().1 as u64) as nat)
            &&& shows(s, "uptime_seconds"@, uptime as nat)
            &&& shows(s, "hits_total"@, t.hits as nat)
            &&& shows(s, "misses_total"@, t.misses as nat)
            &&& shows(s, "uploads_total"@, t.uploads as nat)
            &&& shows(s, "duplicate_uploads_total"@, t.duplicates as nat)
            &&& shows(s, "unauthorized_uploads_total"@, t.unauthorized as nat)
            &&& shows(s, "evictions_total"@, t.evictions as nat)
            &&& shows(s, "evicted_bytes_total"@, metrics.bytes_evicted() as nat)
            &&& shows(s, "served_bytes_total"@, t.bytes_served as nat)
            &&& shows(s, "received_bytes_total"@, t.bytes_received as nat)
        }),
{
    assert forall|i: int| 0 <= i < gauges(metrics, capacity, uptime).len() implies shows(
        prometheus_text(metrics, capacity, uptime),
        (#[trigger] gauges(metrics, capacity, uptime)[i]).name@,
        gauges(metrics, capacity, uptime)[i].value as nat,
    ) by {
        lemma_gauge_is_shown(metrics, capacity, uptime, i);
    }
    assert forall|i: int| 0 <= i < counters(metrics).len() implies shows(
        prometheus_text(metrics, capacity, uptime),
        (#[trigger] counters(metrics)[i]).name@,
        counters(metrics)[i].value as nat,
    ) by {
        lemma_counter_is_shown(metrics, capacity, uptime, i);
    }
    let g = gauges(metrics, capacity, uptime);
    let c = counters(metrics);
    assert(g[0].name@ == "capacity_bytes"@ && g[1].name@ == "size_bytes"@);
    assert(g[2].name@ == "entries"@ && g[3].name@ == "uptime_seconds"@);
    assert(c[0].name@ == "hits_total"@ && c[1].name@ == "misses_total"@);
    assert(c[2].name@ == "uploads_total"@ && c[3].name@ == "duplicate_uploads_total"@);
    assert(c[4].name@ == "unauthorized_uploads_total"@ && c[5].name@ == "evictions_total"@);
    assert(c[6].name@ == "evicted_bytes_total"@ && c[7].name@ == "served_bytes_total"@);
    assert(c[8].name@ == "received_bytes_total"@);
}

proof fn lemma_class_is_shown(all: Seq<u64>, n: nat, class: nat, p: Seq<char>)
    requires
        class < n,
        p == "halide_cache_eviction_age_seconds_bucket{le=\""@ + bound_text(class as int)
            + "\"} "@ + text::decimal(count_before(all, class + 1)) + "\n"@,
    ensures
        text::occurs(classes_text(all, n), p),
    decreases n,
{
    let before = classes_text(all, (n - 1) as nat);
    let none = Seq::<char>::empty();
    if class == n - 1 {
        text::law_pattern_is_found(before, p, none);
        assert(before + p + none =~= classes_text(all, n));
    } else {
        lemma_class_is_shown(all, (n - 1) as nat, class, p);
        let rest = classes_text(all, n).skip(before.len() as int);
        assert(classes_text(all, n) =~= none + before + rest);
        lemma_occurs_within(none, before, rest, p);
    }
}

/// The histogram shows, for each bound, how many entries had gone unused for at most that
/// long, and for any time how many there were.
pub proof fn law_histogram_is_shown(metrics: Metrics, capacity: u64, uptime: u64, class: nat)
    requires
        class < 6,
    ensures
        ({
            let s = prometheus_text(metrics, capacity, uptime);
            let label = if class < 5 {
                text::decimal(ages::age_bound(class as int) as nat)
            } else {
                "+Inf"@
            };
            let many = count_up_to(metrics.ages(), ages::age_bound(class as int));
            &&& text::occurs(
                s,
                "halide_cache_eviction_age_seconds_bucket{le=\""@ + label + "\"} "@
                    + text::decimal(many) + "\n"@,
            )
            &&& text::occurs(
                s,
                "halide_cache_eviction_age_seconds_count "@ + text::decimal(metrics.ages().len())
                    + "\n"@,
            )
            &&& class == 5 ==> many == metrics.ages().len()
        }),
{
    let s = prometheus_text(metrics, capacity, uptime);
    let all = metrics.ages();
    law_histogram_is_cumulative(all, class);
    law_histogram_counts_all(metrics);
    let none = Seq::<char>::empty();
    let p = "halide_cache_eviction_age_seconds_bucket{le=\""@ + bound_text(class as int)
        + "\"} "@ + text::decimal(count_before(all, class + 1)) + "\n"@;
    lemma_class_is_shown(all, 6, class, p);
    let head = samples_text("gauge"@, gauges(metrics, capacity, uptime)) + samples_text(
        "counter"@,
        counters(metrics),
    )
        + "# HELP halide_cache_eviction_age_seconds Seconds since last use when an entry was evicted\n# TYPE halide_cache_eviction_age_seconds histogram\n"@;
    let count = "halide_cache_eviction_age_seconds_count "@ + text::decimal(count_before(all, 6))
        + "\n"@;
    assert(s =~= head + classes_text(all, 6) + count);
    lemma_occurs_within(head, classes_text(all, 6), count, p);
    assert(s =~= (head + classes_text(all, 6)) + count + none);
    text::law_pattern_is_found(head + classes_text(all, 6), count, none);
}

/// Ages up to a bound are counted each once.
pub proof fn law_ages_up_to_a_bound_are_counted(all: Seq<u64>, age: u64, bound: u64)
    ensures
        count_up_to(Seq::empty(), bound) == 0,
        count_up_to(all.push(age), bound) == count_up_to(all, bound) + if age <= bound {
            1nat
        } else {
            0
        },
{
    assert(all.push(age).drop_last() =~= all);
}

/// The lines of each number follow those of the numbers before it, and nothing stands between
/// them.
pub proof fn law_lines_follow_each_other(kind: Seq<char>, samples: Seq<Sample>, s: Sample)
    ensures
        samples_text(kind, Seq::empty()) == Seq::<char>::empty(),
        samples_text(kind, samples.push(s)) == samples_text(kind, samples) + (
        "# HELP halide_cache_"@ + s.name@ + " "@ + s.help@ + "\n# TYPE halide_cache_"@ + s.name@
            + " "@ + kind + "\nhalide_cache_"@ + s.name@ + " "@ + text::decimal(s.value as nat)
            + "\n"@),
{
    assert(samples.push(s).drop_last() =~= samples);
}

} // verus!
