//! The endpoints of the server, what they count, and its eviction.

use halide_cache::address::{Address, ADDRESS_SIZE};
use halide_cache::ages::age_bounds;
use halide_cache::blobs::{
    authorized, put, constant_time_eq, put_stored, get, head, open_blob, CountingReader, Upload,
};
use halide_cache::clients::{Client, MAX_CLIENTS};
use halide_cache::config::configured_token;
use halide_cache::error::{Error, IoError, IoErrorKind};
use halide_cache::eviction::{evict, maybe_evict_after_upload, freed};
use halide_cache::extract::{forwarded_entry, read_hostname, BlobAddress, ClientId};
use halide_cache::http::{Body, Response};
use halide_cache::lager::{Kind, Lager};
use halide_cache::lru::{EvictStep, Evicted, Listed, LRU};
use halide_cache::metrics::{Event, Metrics};
use halide_cache::stats::{default_window, history, prometheus, stats, HistoryQuery};

#[test]
fn records_totals() {
    let mut m = Metrics::default();
    m.record(Event::Hit, 100);
    m.record(Event::Miss, 0);
    m.record(Event::Upload, 50);
    m.record(Event::Duplicate, 50);

    assert_eq!(m.totals.hits, 1);
    assert_eq!(m.totals.misses, 1);
    assert_eq!(m.totals.uploads, 1);
    assert_eq!(m.totals.duplicates, 1);
    assert_eq!(m.totals.bytes_served, 100);
    assert_eq!(m.totals.bytes_received, 100);
    assert_eq!(m.totals.bytes_since_evict, 100);

    m.record_scan(10, 1, &[]);
    assert_eq!(m.last_scan(), (10, 1));
}

#[test]
fn refused_uploads_and_evictions_are_counted() {
    let mut m = Metrics::default();
    m.record(Event::Unauthorized, 7);
    assert_eq!(m.totals.unauthorized, 1);
    assert_eq!(m.totals.bytes_received, 0);
    m.record_scan(10, 1, &[evicted(1, 2), evicted(1, 3)]);
    assert_eq!(m.totals.evictions, 2);
    m.totals.hits = u64::MAX;
    m.record(Event::Hit, 0);
    assert_eq!(m.totals.hits, 0, "counters wrap around");
}

fn evicted(last_used: i128, size: u64) -> Evicted {
    Evicted { address: Address::from([0; ADDRESS_SIZE]), last_used, size }
}

fn client(ip: &str, hostname: Option<&str>) -> Client {
    Client { ip: ip.to_string(), hostname: hostname.map(|h| h.to_string()) }
}

#[test]
fn the_history_is_by_minute() {
    let mut m = Metrics::default();
    let c = client("10.0.0.1", None);
    m.record_request(Event::Hit, 5, &c, 100_020);
    m.record_request(Event::Miss, 0, &c, 100_079);
    m.record_request(Event::Upload, 7, &c, 100_080);
    m.record_request(Event::Duplicate, 2, &c, 100_081);
    m.record_request(Event::Unauthorized, 0, &c, 100_082);
    m.record_pass(99, 3, &[], 0, 100_090);

    let all = m.history(3600, 100_100);
    assert_eq!(all.len(), 2);
    assert_eq!((all[0].start, all[0].hits, all[0].misses, all[0].uploads), (100_020, 1, 1, 0));
    assert_eq!((all[0].bytes, all[0].size), (5, None));
    assert_eq!((all[1].start, all[1].hits, all[1].misses, all[1].uploads), (100_080, 0, 0, 1));
    assert_eq!((all[1].bytes, all[1].size), (9, Some(99)));
    assert_eq!(m.totals.uploads, 1);
    assert_eq!(m.last_scan(), (99, 3));

    let last = m.history(20, 100_100);
    assert_eq!(last.len(), 1);
    assert_eq!(last[0].start, 100_080);
    assert_eq!(m.history(21, 100_100).len(), 2, "a minute that overlaps is in");

    // A clock that is set back finds its minute again.
    m.record_request(Event::Hit, 1, &c, 100_021);
    assert_eq!(m.history(3600, 100_100)[0].hits, 2);
}

#[test]
fn the_history_is_capped() {
    let mut m = Metrics::default();
    let c = client("10.0.0.1", None);
    m.record_request(Event::Hit, 5, &c, 600);
    m.record_request(Event::Hit, 5, &c, 600 + 86_400);
    let all = history(&m, HistoryQuery { seconds: u64::MAX }, 600 + 86_400);
    assert_eq!(all.buckets.len(), 2);
    assert_eq!((all.bucket_seconds, all.now), (60, 87_000));
    m.record_request(Event::Hit, 5, &c, 660 + 86_400);
    let all = history(&m, HistoryQuery { seconds: u64::MAX }, 660 + 86_400);
    assert_eq!(all.buckets.len(), 2, "the first minute is out");
    assert_eq!(all.buckets[0].start, 87_000);
    assert_eq!(default_window(), 3600);
}

#[test]
fn clients_are_told_apart() {
    let mut m = Metrics::default();
    m.record_request(Event::Hit, 5, &client("10.0.0.1", Some("alpha")), 10);
    m.record_request(Event::Miss, 0, &client("10.0.0.2", None), 11);
    m.record_request(Event::Upload, 6, &client("10.0.0.1", None), 12);
    m.record_request(Event::Unauthorized, 0, &client("10.0.0.1", Some("beta")), 13);
    let rows = m.clients();
    assert_eq!(rows.len(), 2);
    let a = &rows[0];
    assert_eq!((a.ip.as_str(), a.hostname.as_deref()), ("10.0.0.1", Some("beta")));
    assert_eq!((a.hits, a.misses, a.uploads, a.unauthorized, a.bytes), (1, 0, 1, 1, 11));
    assert_eq!((a.first_seen, a.last_seen), (10, 13));
    let b = &rows[1];
    assert_eq!((b.ip.as_str(), b.hostname.as_deref(), b.misses), ("10.0.0.2", None, 1));
}

#[test]
fn the_table_of_clients_is_capped() {
    let mut m = Metrics::default();
    for i in 0..MAX_CLIENTS + 10 {
        m.record_request(Event::Miss, 0, &client(&format!("c{i}"), None), 10);
    }
    assert_eq!(m.clients().len(), 4096);
    m.record_request(Event::Hit, 1, &client("c0", None), 11);
    assert_eq!(m.clients()[0].hits, 1, "a known client is still counted");
    assert_eq!(m.totals.misses, 4106);
}

const SECOND: i128 = 1_000_000_000;

#[test]
fn ages_at_eviction_are_classed() {
    let mut m = Metrics::default();
    let now = 1_000_000 * SECOND;
    let aged = |seconds: i128| evicted(now - seconds * SECOND, 10);
    let removed = [aged(604_801), aged(3600), aged(3601), aged(0), evicted(now + 1, 5)];
    m.record_pass(1, 1, &removed, now, 1_000_000);
    let ages = m.eviction_ages();
    assert_eq!(ages.buckets, [3, 1, 0, 0, 0, 1]);
    assert_eq!(ages.bytes_evicted, 45);
    assert_eq!(ages.min_seconds, Some(0));
    assert_eq!(ages.median_seconds, Some(3600));
    assert_eq!(age_bounds(), [3600, 21_600, 86_400, 259_200, 604_800, u64::MAX]);
    assert_eq!(Metrics::default().eviction_ages().median_seconds, None);
    assert_eq!(m.totals.evictions, 5);
}

#[test]
fn stats_hold_the_totals() {
    let mut m = Metrics::default();
    m.record(Event::Hit, 100);
    m.record(Event::Duplicate, 3);
    m.record_pass(10, 2, &[evicted(0, 4)], 7 * SECOND, 7);
    let s = stats(&m, 1000, 60);
    assert_eq!((s.uptime_seconds, s.capacity_bytes, s.size_bytes, s.entries), (60, 1000, 10, 2));
    assert_eq!((s.hits, s.misses, s.uploads, s.duplicates), (1, 0, 0, 1));
    assert_eq!((s.unauthorized, s.evictions, s.bytes_served, s.bytes_received), (0, 1, 100, 3));
    assert_eq!(s.eviction_ages.min_seconds, Some(7));
    assert_eq!(s.eviction_age_bounds_seconds[0], 3600);
}

#[test]
fn the_prometheus_text_is_complete() {
    let mut m = Metrics::default();
    m.record(Event::Hit, 100);
    m.record(Event::Miss, 0);
    m.record(Event::Upload, 50);
    m.record(Event::Unauthorized, 0);
    m.record_pass(10, 2, &[evicted(0, 4), evicted(0, 5)], 7200 * SECOND, 7200);
    let expected = "\
# HELP halide_cache_capacity_bytes Configured maximum cache size
# TYPE halide_cache_capacity_bytes gauge
halide_cache_capacity_bytes 1000
# HELP halide_cache_size_bytes Cache size at the last eviction pass
# TYPE halide_cache_size_bytes gauge
halide_cache_size_bytes 10
# HELP halide_cache_entries Entries at the last eviction pass
# TYPE halide_cache_entries gauge
halide_cache_entries 2
# HELP halide_cache_uptime_seconds Seconds since start
# TYPE halide_cache_uptime_seconds gauge
halide_cache_uptime_seconds 60
# HELP halide_cache_hits_total Blob downloads that found an entry
# TYPE halide_cache_hits_total counter
halide_cache_hits_total 1
# HELP halide_cache_misses_total Blob downloads that found nothing
# TYPE halide_cache_misses_total counter
halide_cache_misses_total 1
# HELP halide_cache_uploads_total New entries uploaded
# TYPE halide_cache_uploads_total counter
halide_cache_uploads_total 1
# HELP halide_cache_duplicate_uploads_total Uploads replacing an existing entry
# TYPE halide_cache_duplicate_uploads_total counter
halide_cache_duplicate_uploads_total 0
# HELP halide_cache_unauthorized_uploads_total Uploads rejected for a missing or wrong token
# TYPE halide_cache_unauthorized_uploads_total counter
halide_cache_unauthorized_uploads_total 1
# HELP halide_cache_evictions_total Entries removed by the LRU
# TYPE halide_cache_evictions_total counter
halide_cache_evictions_total 2
# HELP halide_cache_evicted_bytes_total Bytes removed by the LRU
# TYPE halide_cache_evicted_bytes_total counter
halide_cache_evicted_bytes_total 9
# HELP halide_cache_served_bytes_total Bytes sent to clients
# TYPE halide_cache_served_bytes_total counter
halide_cache_served_bytes_total 100
# HELP halide_cache_received_bytes_total Bytes received from clients
# TYPE halide_cache_received_bytes_total counter
halide_cache_received_bytes_total 50
# HELP halide_cache_eviction_age_seconds Seconds since last use when an entry was evicted
# TYPE halide_cache_eviction_age_seconds histogram
halide_cache_eviction_age_seconds_bucket{le=\"3600\"} 0
halide_cache_eviction_age_seconds_bucket{le=\"21600\"} 2
halide_cache_eviction_age_seconds_bucket{le=\"86400\"} 2
halide_cache_eviction_age_seconds_bucket{le=\"259200\"} 2
halide_cache_eviction_age_seconds_bucket{le=\"604800\"} 2
halide_cache_eviction_age_seconds_bucket{le=\"+Inf\"} 2
halide_cache_eviction_age_seconds_count 2
";
    assert_eq!(prometheus(&m, 1000, 60), expected);
}

fn header<'a>(response: &'a Response, name: &str) -> Option<&'a str> {
    response.headers.iter().find(|h| h.name == name).map(|h| h.value.as_str())
}

fn text(response: &Response) -> &str {
    match &response.body {
        Body::Text(s) => s,
        _ => panic!("expected a text"),
    }
}

fn broken(kind: IoErrorKind) -> Error {
    Error::Io(IoError { kind, message: "broken".to_string() })
}

#[test]
fn a_blob_that_is_there_is_sent() {
    let blob = open_blob(Ok((Kind::Dir, Ok(12))));
    let reply = get(&blob);
    assert_eq!(reply.response.status, 200);
    assert_eq!(header(&reply.response, "x-lager-kind"), Some("dir"));
    assert_eq!(header(&reply.response, "content-type"), Some("application/octet-stream"));
    assert_eq!(header(&reply.response, "content-length"), Some("12"));
    assert!(matches!(reply.response.body, Body::Blob));
    assert_eq!(reply.event, Some((Event::Hit, 12)));
    let response = head(&blob);
    assert_eq!(response.status, 200);
    assert_eq!(header(&response, "content-length"), Some("12"));
    assert!(matches!(response.body, Body::Empty));
}

#[test]
fn a_blob_that_is_not_there_is_a_miss() {
    let blob = open_blob(Err(Error::NotFound { address: Address::from([0; ADDRESS_SIZE]) }));
    let reply = get(&blob);
    assert_eq!(reply.response.status, 404);
    assert_eq!(reply.event, Some((Event::Miss, 0)));
    assert_eq!(head(&blob).status, 404);
}

#[test]
fn a_broken_store_is_an_error_of_the_server() {
    for blob in [
        open_blob(Err(broken(IoErrorKind::Other))),
        open_blob(Ok((
            Kind::File,
            Err(IoError { kind: IoErrorKind::Other, message: "m".to_string() }),
        ))),
    ] {
        let reply = get(&blob);
        assert_eq!(reply.response.status, 500);
        assert_eq!(reply.event, None);
        assert_eq!(head(&blob).status, 500);
    }
}

#[test]
fn uploads_need_the_token() {
    let token = Some("secret".to_string());
    assert!(authorized(&token, Some("Bearer secret")));
    assert!(!authorized(&token, Some("Bearer secreT")));
    assert!(!authorized(&token, Some("Bearer secret ")));
    assert!(!authorized(&token, Some("bearer secret")));
    assert!(!authorized(&token, Some("secret")));
    assert!(!authorized(&token, Some("Bearer ")));
    assert!(!authorized(&token, None));
    assert!(authorized(&None, None));
    assert!(authorized(&None, Some("Bearer x")));
}

#[test]
fn equality_in_constant_time() {
    assert!(constant_time_eq(b"", b""));
    assert!(constant_time_eq(b"abc", b"abc"));
    assert!(!constant_time_eq(b"abc", b"abd"));
    assert!(!constant_time_eq(b"abc", b"xbc"));
    assert!(!constant_time_eq(b"abc", b"ab"));
}

#[test]
fn an_upload_is_begun() {
    let token = Some("t".to_string());
    match put(&token, Some("Bearer t"), Some("dir")) {
        Upload::Accepted(kind) => assert_eq!(kind, Kind::Dir),
        _ => panic!("expected the upload to begin"),
    }
    match put(&token, None, Some("dir")) {
        Upload::Refused(reply) => {
            assert_eq!(reply.response.status, 401);
            assert_eq!(text(&reply.response), "bearer token required\n");
            assert_eq!(reply.event, Some((Event::Unauthorized, 0)));
        }
        _ => panic!("expected a refusal"),
    }
    for kind in [None, Some("tar")] {
        match put(&None, None, kind) {
            Upload::Refused(reply) => {
                assert_eq!(reply.response.status, 400);
                assert_eq!(
                    text(&reply.response),
                    "x-lager-kind header must be 'file' or 'dir'\n"
                );
                assert_eq!(reply.event, None);
            }
            _ => panic!("expected a refusal"),
        }
    }
}

#[test]
fn an_upload_is_ended() {
    let reply = put_stored(&Some(Ok(true)), 9);
    assert_eq!((reply.response.status, reply.event), (201, Some((Event::Upload, 9))));
    let reply = put_stored(&Some(Ok(false)), 9);
    assert_eq!((reply.response.status, reply.event), (200, Some((Event::Duplicate, 9))));
    let reply = put_stored(&Some(Err(broken(IoErrorKind::FileTooLarge))), 9);
    assert_eq!((reply.response.status, reply.event), (413, None));
    assert_eq!(text(&reply.response), "blob exceeds --max-blob-size\n");
    let reply = put_stored(&Some(Err(broken(IoErrorKind::Other))), 9);
    assert_eq!((reply.response.status, reply.event), (400, None));
    assert_eq!(text(&reply.response), "upload failed\n");
    let runtime = Error::Runtime { msg: "m".to_string() };
    assert_eq!(put_stored(&Some(Err(runtime)), 9).response.status, 400);
    assert_eq!(put_stored(&None, 9).response.status, 500);
}

#[test]
fn the_size_of_an_upload_is_limited() {
    let mut reader = CountingReader::new(10);
    assert!(reader.read(4).is_ok());
    assert!(reader.read(6).is_ok());
    assert!(reader.read(0).is_ok());
    let error = reader.read(1).unwrap_err();
    assert_eq!(error.kind, IoErrorKind::FileTooLarge);
    assert_eq!(error.message, "blob exceeds the configured maximum size");
    assert_eq!(reader.count, 11);
}

#[test]
fn malformed_addresses_are_rejected() {
    let hex = "ab".repeat(64);
    let address = BlobAddress::from_segment(Some(&hex)).unwrap();
    assert_eq!(address.0, Address::from([0xab; ADDRESS_SIZE]));
    for segment in [Some("ab"), Some("xyz"), Some(""), None] {
        assert_eq!(BlobAddress::from_segment(segment).unwrap_err(), 400);
    }
}

#[test]
fn clients_are_identified() {
    assert_eq!(forwarded_entry(" 10.1.2.3 , 10.0.0.1"), "10.1.2.3");
    assert_eq!(forwarded_entry("10.1.2.3"), "10.1.2.3");
    assert_eq!(forwarded_entry(""), "");
    assert_eq!(forwarded_entry(",x"), "");
    assert_eq!(read_hostname("\t agent-7 \u{3000}"), Some("agent-7".to_string()));
    assert_eq!(read_hostname("a b"), Some("a b".to_string()));
    assert_eq!(read_hostname("   "), None);
    assert_eq!(read_hostname(&"h".repeat(200)), Some("h".repeat(128)));

    let id = ClientId::identify(Some("10.1.2.3".to_string()), "127.0.0.1".to_string(), Some(" me"));
    assert_eq!((id.0.ip.as_str(), id.0.hostname.as_deref()), ("10.1.2.3", Some("me")));
    let id = ClientId::identify(None, "127.0.0.1".to_string(), None);
    assert_eq!((id.0.ip.as_str(), id.0.hostname), ("127.0.0.1", None));
}

#[test]
fn white_space_is_trimmed_as_std_does() {
    for n in 0..=0x3100u32 {
        if let Some(c) = char::from_u32(n) {
            let padded = format!("{c}x{c}");
            assert_eq!(read_hostname(&padded).unwrap(), padded.trim(), "{n}");
        }
    }
}

fn scanned(sizes: &[u64]) -> LRU<()> {
    let mut lru = LRU::new(Lager::new(Ok(())).unwrap());
    let listing = sizes
        .iter()
        .enumerate()
        .map(|(i, len)| {
            Ok(Listed {
                name: format!("{}.zst", format!("{i:02x}").repeat(64)),
                is_file: true,
                len: *len,
                modified: Ok(i as i128),
            })
        })
        .collect();
    lru.scan(listing, 0).result.unwrap();
    lru
}

fn sizes_after(mut step: EvictStep<()>) -> (u64, usize) {
    loop {
        match step {
            EvictStep::Remove(eviction) => step = eviction.resume(Ok(true)),
            EvictStep::Done { lru, result } => return (lru.lager_size(), result.unwrap().len()),
        }
    }
}

#[test]
fn a_pass_shrinks_to_the_low_water_mark() {
    assert_eq!(sizes_after(evict(scanned(&[1; 100]), 100)), (100, 0));
    assert_eq!(sizes_after(evict(scanned(&[1; 101]), 100)), (95, 6));
    assert_eq!(sizes_after(evict(scanned(&[60, 60]), 100)), (60, 1));
    assert_eq!(freed(120, 60), 60);
    assert_eq!(freed(60, 120), 0);
}

#[test]
fn a_burst_of_uploads_triggers_a_pass() {
    let mut m = Metrics::default();
    m.record(Event::Upload, 50);
    assert!(!maybe_evict_after_upload(1000, &m.totals));
    m.record(Event::Duplicate, 1);
    assert!(maybe_evict_after_upload(1000, &m.totals));
    m.begin_pass();
    assert!(!maybe_evict_after_upload(1000, &m.totals));
    m.record(Event::Upload, 60);
    m.record_scan(1, 1, &[]);
    assert_eq!(m.totals.bytes_since_evict, 60, "uploads during a pass count");
}

#[test]
fn a_pass_that_fails_changes_nothing() {
    let mut m = Metrics::default();
    m.record_pass(10, 2, &[evicted(0, 4)], 7 * SECOND, 7);
    m.begin_pass();
    m.record(Event::Upload, 60);
    let before = format!("{m:?}");
    let failed = Error::Runtime { msg: "no".to_string() };
    m.finish_pass(Err(failed), 9 * SECOND, 9);
    assert_eq!(format!("{m:?}"), before);
    assert_eq!(m.totals.bytes_since_evict, 60);
}

#[test]
fn a_pass_that_ends_is_recorded() {
    let mut one = Metrics::default();
    one.begin_pass();
    one.record(Event::Upload, 60);
    one.finish_pass(Ok((10, 2, vec![evicted(0, 4), evicted(0, 5)])), 7200 * SECOND, 7200);
    let s = stats(&one, 1000, 60);
    assert_eq!((s.size_bytes, s.entries, s.evictions), (10, 2, 2));
    assert_eq!(s.eviction_ages.min_seconds, Some(7200));
    assert_eq!(one.totals.bytes_since_evict, 60, "uploads during a pass count");

    let mut other = Metrics::default();
    other.begin_pass();
    other.record(Event::Upload, 60);
    other.record_pass(10, 2, &[evicted(0, 4), evicted(0, 5)], 7200 * SECOND, 7200);
    assert_eq!(format!("{one:?}"), format!("{other:?}"));
}

#[test]
fn a_required_token_must_be_there() {
    let message =
        "--require-token is set but no token is configured (--token or HALIDE_CACHE_SERVER_TOKEN)";
    for token in [None, Some(String::new())] {
        match configured_token(token, true) {
            Err(Error::Runtime { msg }) => assert_eq!(msg, message),
            _ => panic!("expected an error"),
        }
    }
    assert_eq!(configured_token(Some(String::new()), false).unwrap(), None);
    assert_eq!(configured_token(Some("t".to_string()), true).unwrap(), Some("t".to_string()));
}
