//! The store and its eviction, on a file system that is kept in memory.

use halide_cache::address::{Address, ADDRESS_SIZE};
use halide_cache::blobs::{self, Upload};
use halide_cache::compression::{compress, decompress};
use halide_cache::error::{Error, FromHexError, IoError, IoErrorKind};
use halide_cache::extract::BlobAddress;
use halide_cache::http::Header;
use halide_cache::lager::{entry_path, temp_path, Kind, Lager, TEMP_SUFFIX};
use halide_cache::lru::{EvictStep, Evicted, Listed, LRU, STALE_TEMP_AGE};
use halide_cache::operations::{
    OpenRaw, Remove, RemoveIfUnused, Reply, Request, Retrieve, SourceKind, Step, StoreAt, StoreRaw,
};
use halide_cache::remote::{Deed, Heard, Remote, RemoteStep};
use std::collections::BTreeMap;
use std::io::Read;

const MILLISECOND: i128 = 1_000_000;

/// Something at a source path.
enum Source {
    File(Vec<u8>),
    /// A tar archive of the directory.
    Dir(Vec<u8>),
    Nothing,
}

/// A file system below the root of a store.
#[derive(Clone)]
struct Disk {
    files: BTreeMap<Vec<String>, (Vec<u8>, i128)>,
    now: i128,
    opened: Option<Vec<String>>,
    extracted: Option<(Kind, Vec<u8>)>,
    /// The failure of writes, if they fail.
    broken: Option<IoErrorKind>,
    /// Whether renames fail.
    stuck: bool,
}

fn failure(kind: IoErrorKind) -> Reply {
    Reply::Failed(IoError { kind, message: "failed".to_string() })
}

impl Disk {
    fn new() -> Disk {
        Disk {
            files: BTreeMap::new(),
            now: 0,
            opened: None,
            extracted: None,
            broken: None,
            stuck: false,
        }
    }

    fn serve(&mut self, request: Request, source: &Source, blob: &[u8]) -> Reply {
        match request {
            Request::CreateDirs { path } => {
                assert_eq!(path.len(), 2);
                Reply::Done
            }
            Request::ProbeSource => Reply::Source(match source {
                Source::File(_) => SourceKind::File,
                Source::Dir(_) => SourceKind::Dir,
                Source::Nothing => SourceKind::Other,
            }),
            Request::StoreSource { path, kind } => {
                assert!(!self.files.contains_key(&path), "temp file is shared");
                let bytes = match (source, kind) {
                    (Source::File(bytes), Kind::File) => bytes,
                    (Source::Dir(archive), Kind::Dir) => archive,
                    _ => panic!("stored as the wrong kind"),
                };
                let frame = compress(bytes).unwrap();
                if let Some(kind) = self.broken {
                    self.files.insert(path, (frame[..frame.len() / 2].to_vec(), self.now));
                    return failure(kind);
                }
                self.files.insert(path, (frame, self.now));
                Reply::Done
            }
            Request::Open { path } => {
                if !self.files.contains_key(&path) {
                    return failure(IoErrorKind::NotFound);
                }
                self.opened = Some(path);
                Reply::Done
            }
            Request::Touch => {
                let path = self.opened.clone().unwrap();
                match self.files.get_mut(&path) {
                    Some(file) => {
                        file.1 = self.now;
                        Reply::Done
                    }
                    None => failure(IoErrorKind::NotFound),
                }
            }
            Request::Extract { kind } => {
                let path = self.opened.clone().unwrap();
                self.extracted = Some((kind, decompress(&self.files[&path].0).unwrap()));
                Reply::Done
            }
            Request::Exists { path } => Reply::Exists(self.files.contains_key(&path)),
            Request::WriteTemp { path } => {
                assert!(!self.files.contains_key(&path), "temp file is shared");
                if let Some(kind) = self.broken {
                    self.files.insert(path, (blob[..blob.len() / 2].to_vec(), self.now));
                    return failure(kind);
                }
                self.files.insert(path, (blob.to_vec(), self.now));
                Reply::Done
            }
            Request::Rename { from, to } => {
                if self.stuck {
                    return failure(IoErrorKind::Other);
                }
                let file = self.files.remove(&from).unwrap();
                self.files.insert(to, file);
                Reply::Done
            }
            Request::RemoveFile { path } => match self.files.remove(&path) {
                Some(_) => Reply::Done,
                None => failure(IoErrorKind::NotFound),
            },
            Request::Modified { path } => match self.files.get(&path) {
                Some(file) => Reply::ModifiedAt(file.1),
                None => failure(IoErrorKind::NotFound),
            },
        }
    }

    fn walk(&self) -> Vec<Result<Listed, Error>> {
        let mut listing = vec![Ok(Listed {
            name: "lager".to_string(),
            is_file: false,
            len: 4096,
            modified: Ok(0),
        })];
        for (path, file) in &self.files {
            listing.push(Ok(Listed {
                name: path[path.len() - 1].clone(),
                is_file: true,
                len: file.0.len() as u64,
                modified: Ok(file.1),
            }));
        }
        listing
    }

    fn opened_bytes(&self) -> Vec<u8> {
        self.files[self.opened.as_ref().unwrap()].0.clone()
    }
}

fn lager(root: &str) -> Lager<String> {
    Lager::new(Ok(root.to_string())).unwrap()
}

fn store_at(lager: &Lager<String>, disk: &mut Disk, a: &Address, source: &Source) -> Result<(), Error> {
    let mut op: StoreAt = lager.store_at(a, "source".to_string(), 78, 1);
    loop {
        let reply = disk.serve(op.request(), source, &[]);
        match op.resume(reply) {
            Step::Perform(next) => op = next,
            Step::Finished(result) => return result,
        }
    }
}

fn retrieve(lager: &Lager<String>, disk: &mut Disk, a: &Address) -> Result<(), Error> {
    let mut op: Retrieve = lager.retrieve(a);
    loop {
        let reply = disk.serve(op.request(), &Source::Nothing, &[]);
        match op.resume(reply) {
            Step::Perform(next) => op = next,
            Step::Finished(result) => return result,
        }
    }
}

fn open_raw(lager: &Lager<String>, disk: &mut Disk, a: &Address) -> Result<Kind, Error> {
    let mut op: OpenRaw = lager.open_raw(a);
    loop {
        let reply = disk.serve(op.request(), &Source::Nothing, &[]);
        match op.resume(reply) {
            Step::Perform(next) => op = next,
            Step::Finished(result) => return result,
        }
    }
}

fn store_raw(
    lager: &Lager<String>,
    disk: &mut Disk,
    a: &Address,
    kind: Kind,
    seq: u64,
    blob: &[u8],
) -> Result<bool, Error> {
    let mut op: StoreRaw = lager.store_raw(a, kind, 77, seq);
    loop {
        let reply = disk.serve(op.request(), &Source::Nothing, blob);
        match op.resume(reply) {
            Step::Perform(next) => op = next,
            Step::Finished(result) => return result,
        }
    }
}

fn remove(lager: &Lager<String>, disk: &mut Disk, a: &Address) -> Result<(), Error> {
    let mut op: Remove = lager.remove(a);
    loop {
        let reply = disk.serve(op.request(), &Source::Nothing, &[]);
        match op.resume(reply) {
            Step::Perform(next) => op = next,
            Step::Finished(result) => return result,
        }
    }
}

fn run_removal(mut op: RemoveIfUnused, disk: &mut Disk) -> Result<bool, Error> {
    loop {
        let reply = disk.serve(op.request(), &Source::Nothing, &[]);
        match op.resume(reply) {
            Step::Perform(next) => op = next,
            Step::Finished(result) => return result,
        }
    }
}

fn scan(lru: &mut LRU<String>, disk: &mut Disk) -> Result<(), Error> {
    let listing = disk.walk();
    let paths: Vec<Vec<String>> = disk.files.keys().cloned().collect();
    let scan = lru.scan(listing, disk.now);
    for place in scan.stale {
        disk.files.remove(&paths[place - 1]);
    }
    scan.result
}

fn evict_until(
    lru: LRU<String>,
    disk: &mut Disk,
    target: u64,
) -> (LRU<String>, Result<Vec<Evicted>, Error>) {
    let mut step = lru.evict_until(target);
    loop {
        match step {
            EvictStep::Remove(eviction) => {
                let removed = run_removal(eviction.removal(), disk);
                step = eviction.resume(removed);
            }
            EvictStep::Done { lru, result } => return (lru, result),
        }
    }
}

fn archive(files: &[(&str, &[u8])]) -> Vec<u8> {
    let mut builder = tar::Builder::new(Vec::new());
    for (name, content) in files {
        let mut header = tar::Header::new_gnu();
        header.set_size(content.len() as u64);
        header.set_mode(0o644);
        header.set_cksum();
        builder.append_data(&mut header, name, *content).unwrap();
    }
    builder.into_inner().unwrap()
}

fn unpack(bytes: &[u8]) -> BTreeMap<String, Vec<u8>> {
    let mut files = BTreeMap::new();
    for entry in tar::Archive::new(bytes).entries().unwrap() {
        let mut entry = entry.unwrap();
        let name = entry.path().unwrap().to_string_lossy().into_owned();
        let mut content = Vec::new();
        entry.read_to_end(&mut content).unwrap();
        files.insert(name, content);
    }
    files
}

#[test]
fn test_lager_from_path() {
    let _lager = Lager::new(Ok("lager_test".to_string()));
}

#[test]
fn a_root_without_a_canonical_path_is_an_error() {
    let error = IoError { kind: IoErrorKind::NotFound, message: "gone".to_string() };
    let result: Result<Lager<String>, Error> = Lager::new(Err(error));
    match result {
        Err(Error::Io(e)) => {
            assert_eq!(e.kind, IoErrorKind::NotFound);
            assert_eq!(e.message, "gone");
        }
        _ => panic!("expected the error"),
    }
    assert_eq!(lager("/var/lib").dir(), "/var/lib");
}

#[test]
fn test_store_retrieve_file() {
    let lager = lager("lager_test");
    let mut disk = Disk::new();
    let address = Address::from([0u8; ADDRESS_SIZE]);

    store_at(&lager, &mut disk, &address, &Source::File(b"Hello, World!".to_vec())).unwrap();
    retrieve(&lager, &mut disk, &address).unwrap();

    assert_eq!(disk.extracted, Some((Kind::File, b"Hello, World!".to_vec())));
}

#[test]
fn test_store_retrieve_directory() {
    let lager = lager("lager_test");
    let mut disk = Disk::new();
    let address = Address::from([1u8; ADDRESS_SIZE]);

    let source = Source::Dir(archive(&[("file1.txt", b"File 1"), ("file2.txt", b"File 2")]));
    store_at(&lager, &mut disk, &address, &source).unwrap();
    retrieve(&lager, &mut disk, &address).unwrap();

    let (kind, bytes) = disk.extracted.unwrap();
    assert_eq!(kind, Kind::Dir);
    let files = unpack(&bytes);
    assert_eq!(files["file1.txt"], b"File 1");
    assert_eq!(files["file2.txt"], b"File 2");
}

#[test]
fn test_retrieve_nonexistent_address() {
    let lager = lager("lager_test");
    let mut disk = Disk::new();
    let address = Address::from([2u8; ADDRESS_SIZE]);

    let result = retrieve(&lager, &mut disk, &address);
    assert!(matches!(result, Err(Error::NotFound { .. })));
}

#[test]
fn storing_what_is_not_there_is_an_error() {
    let lager = lager("lager_test");
    let mut disk = Disk::new();
    let address = Address::from([2u8; ADDRESS_SIZE]);

    match store_at(&lager, &mut disk, &address, &Source::Nothing) {
        Err(Error::NoSuchFile { path }) => assert_eq!(path, "source"),
        _ => panic!("expected an error"),
    }
    assert!(disk.files.is_empty());
}

#[test]
fn concurrent_raw_stores_of_same_address_do_not_collide() {
    let mut disk = Disk::new();
    let address = Address::from([9u8; ADDRESS_SIZE]);
    let lager = lager("l");

    // The writers take turns, each from one request to the next.
    let mut writers: Vec<(u8, Option<StoreRaw>)> = (0..8u8)
        .map(|i| (i, Some(lager.store_raw(&address, Kind::File, 1, i as u64))))
        .collect();
    while writers.iter().any(|w| w.1.is_some()) {
        for (i, writer) in writers.iter_mut() {
            if let Some(op) = writer.take() {
                let payload = vec![*i; 4096];
                let reply = disk.serve(op.request(), &Source::Nothing, &payload);
                match op.resume(reply) {
                    Step::Perform(next) => *writer = Some(next),
                    Step::Finished(result) => {
                        result.unwrap();
                    }
                }
            }
        }
    }

    open_raw(&lager, &mut disk, &address).unwrap();
    let got = disk.opened_bytes();
    assert_eq!(got.len(), 4096);
    assert!(got.iter().all(|b| *b == got[0]), "blob mixes two writes");
    let leftovers: Vec<_> =
        disk.files.keys().filter(|path| path[path.len() - 1].contains(TEMP_SUFFIX)).collect();
    assert!(leftovers.is_empty(), "temp files left behind");
}

/// A store of either form.
enum Store {
    Raw(StoreRaw),
    Source(StoreAt),
}

/// The next request of a store; the store, or nothing once it has ended well.
fn take_turn(store: Store, disk: &mut Disk, payload: &[u8]) -> Option<Store> {
    match store {
        Store::Raw(op) => {
            let blob = compress(payload).unwrap();
            let reply = disk.serve(op.request(), &Source::Nothing, &blob);
            match op.resume(reply) {
                Step::Perform(next) => Some(Store::Raw(next)),
                Step::Finished(result) => {
                    result.unwrap();
                    None
                }
            }
        }
        Store::Source(op) => {
            let reply = disk.serve(op.request(), &Source::File(payload.to_vec()), b"");
            match op.resume(reply) {
                Step::Perform(next) => Some(Store::Source(next)),
                Step::Finished(result) => {
                    result.unwrap();
                    None
                }
            }
        }
    }
}

#[test]
fn concurrent_stores_of_either_form_do_not_collide() {
    let address = Address::from([9u8; ADDRESS_SIZE]);
    let lager = lager("l");
    let mut before = Disk::new();
    store_at(&lager, &mut before, &address, &Source::File(vec![9; 4096])).unwrap();
    store_at(&lager, &mut before, &address, &Source::Dir(archive(&[("x", b"x")]))).unwrap();

    // Two stores from a source path and a raw one, in different orders of their steps.
    let orders: [&[usize]; 4] = [
        &[0, 1, 2, 0, 1, 2, 0, 1, 2, 0, 1, 2, 0, 1, 2],
        &[0, 0, 0, 1, 1, 1, 2, 2, 2, 2, 1, 0, 0, 1, 2],
        &[2, 1, 1, 1, 1, 0, 0, 0, 0, 0, 2, 2, 2, 2, 1],
        &[1, 1, 1, 1, 1, 2, 2, 2, 2, 2, 0, 0, 0, 0, 0],
    ];
    for order in orders {
        let mut disk = before.clone();
        let mut writers = vec![
            Some(Store::Source(lager.store_at(&address, "a".to_string(), 1, 0))),
            Some(Store::Source(lager.store_at(&address, "b".to_string(), 1, 1))),
            Some(Store::Raw(lager.store_raw(&address, Kind::File, 2, 0))),
        ];
        for &i in order {
            let payload = vec![i as u8; 4096];
            let store = writers[i].take().unwrap();
            writers[i] = take_turn(store, &mut disk, &payload);

            // Whoever reads meanwhile gets a whole blob, or the directory that was there.
            let mut seen = disk.clone();
            retrieve(&lager, &mut seen, &address).unwrap();
            let (kind, bytes) = seen.extracted.unwrap();
            match kind {
                Kind::Dir => assert_eq!(unpack(&bytes)["x"], b"x"),
                Kind::File => {
                    assert_eq!(bytes.len(), 4096);
                    assert!(bytes.iter().all(|b| *b == bytes[0] && *b < 3));
                }
            }
        }
        assert!(writers.iter().all(|w| w.is_none()), "each ends after five turns");
        assert_eq!(open_raw(&lager, &mut disk, &address).unwrap(), Kind::File);
        assert_eq!(disk.files.len(), 1, "neither temporary files nor another kind stay");
    }
}

#[test]
fn raw_roundtrip_between_lagers() {
    let la = lager("a");
    let lb = lager("b");
    let mut a = Disk::new();
    let mut b = Disk::new();
    let address = Address::from([7u8; ADDRESS_SIZE]);
    store_at(&la, &mut a, &address, &Source::File(b"payload".to_vec())).unwrap();

    let kind = open_raw(&la, &mut a, &address).unwrap();
    assert_eq!(kind, Kind::File);
    assert!(store_raw(&lb, &mut b, &address, kind, 0, &a.opened_bytes()).unwrap());

    let kind = open_raw(&la, &mut a, &address).unwrap();
    assert!(!store_raw(&lb, &mut b, &address, kind, 1, &a.opened_bytes()).unwrap());

    retrieve(&lb, &mut b, &address).unwrap();
    assert_eq!(b.extracted.unwrap().1, b"payload");
}

#[test]
fn storing_a_different_kind_replaces_the_entry() {
    let lager = lager("lager_kind");
    let mut disk = Disk::new();
    let address = Address::from([3u8; ADDRESS_SIZE]);

    store_at(&lager, &mut disk, &address, &Source::File(b"file".to_vec())).unwrap();
    assert_eq!(open_raw(&lager, &mut disk, &address).unwrap(), Kind::File);

    store_at(&lager, &mut disk, &address, &Source::Dir(archive(&[("x", b"x")]))).unwrap();
    assert_eq!(open_raw(&lager, &mut disk, &address).unwrap(), Kind::Dir);

    let kind = open_raw(&lager, &mut disk, &address).unwrap();
    let mut other = Disk::new();
    store_raw(&lager, &mut other, &address, kind, 0, &disk.opened_bytes()).unwrap();
    let kind = open_raw(&lager, &mut other, &address).unwrap();
    assert_eq!(kind, Kind::Dir);

    assert_eq!(other.files.len(), 1, "exactly one physical entry per address");
}

#[test]
fn a_failed_write_leaves_no_temp_file() {
    let lager = lager("l");
    let mut disk = Disk::new();
    let address = Address::from([4u8; ADDRESS_SIZE]);
    disk.broken = Some(IoErrorKind::FileTooLarge);

    match store_raw(&lager, &mut disk, &address, Kind::Dir, 5, b"0123456789") {
        Err(Error::Io(e)) => assert_eq!(e.kind, IoErrorKind::FileTooLarge),
        _ => panic!("expected an error"),
    }
    assert!(disk.files.is_empty());
    assert!(matches!(open_raw(&lager, &mut disk, &address), Err(Error::NotFound { .. })));
}

#[test]
fn a_failed_write_keeps_the_entry_of_its_kind() {
    let lager = lager("l");
    let mut disk = Disk::new();
    let address = Address::from([4u8; ADDRESS_SIZE]);
    assert!(store_raw(&lager, &mut disk, &address, Kind::File, 0, b"old").unwrap());
    disk.broken = Some(IoErrorKind::Other);
    assert!(store_raw(&lager, &mut disk, &address, Kind::File, 1, b"new").is_err());

    assert_eq!(open_raw(&lager, &mut disk, &address).unwrap(), Kind::File);
    assert_eq!(disk.opened_bytes(), b"old");
}

#[test]
fn a_failed_write_keeps_the_entry_of_the_other_kind() {
    let lager = lager("l");
    for (old, new) in [(Kind::File, Kind::Dir), (Kind::Dir, Kind::File)] {
        for rename in [false, true] {
            let mut disk = Disk::new();
            let address = Address::from([4u8; ADDRESS_SIZE]);
            let neighbour = Address::from([5u8; ADDRESS_SIZE]);
            store_raw(&lager, &mut disk, &address, old, 0, b"old").unwrap();
            store_raw(&lager, &mut disk, &neighbour, new, 1, b"near").unwrap();
            let before = disk.files.clone();
            disk.stuck = rename;
            disk.broken = if rename { None } else { Some(IoErrorKind::Other) };
            match store_raw(&lager, &mut disk, &address, new, 2, b"new") {
                Err(Error::Io(e)) => assert_eq!(e.kind, IoErrorKind::Other),
                _ => panic!("expected the error"),
            }
            assert_eq!(disk.files, before);
            assert_eq!(open_raw(&lager, &mut disk, &address).unwrap(), old);
            assert_eq!(disk.opened_bytes(), b"old");
        }
    }
}

#[test]
fn a_failed_store_keeps_what_stood_there() {
    let lager = lager("l");
    let sources = || [Source::File(b"new file".to_vec()), Source::Dir(archive(&[("x", b"x")]))];
    for old in sources() {
        for new in sources() {
            for rename in [false, true] {
                let mut disk = Disk::new();
                let address = Address::from([4u8; ADDRESS_SIZE]);
                store_at(&lager, &mut disk, &address, &old).unwrap();
                let before = disk.files.clone();
                disk.stuck = rename;
                disk.broken = if rename { None } else { Some(IoErrorKind::Other) };
                let result = store_at(&lager, &mut disk, &address, &new);
                assert!(matches!(result, Err(Error::Io(_))));
                assert_eq!(disk.files, before, "nothing is lost and nothing is left behind");
                retrieve(&lager, &mut disk, &address).unwrap();
                let kept = match &old {
                    Source::File(bytes) => (Kind::File, bytes.clone()),
                    Source::Dir(bytes) => (Kind::Dir, bytes.clone()),
                    Source::Nothing => panic!("nothing was stored"),
                };
                assert_eq!(disk.extracted, Some(kept));
            }
        }
    }
}

#[test]
fn a_stopped_store_keeps_what_stood_there() {
    let lager = lager("l");
    let address = Address::from([4u8; ADDRESS_SIZE]);
    // The process is killed after so many requests.
    for requests in 0..5 {
        let mut disk = Disk::new();
        let old = Source::Dir(archive(&[("x", b"x")]));
        store_at(&lager, &mut disk, &address, &old).unwrap();
        let source = Source::File(b"new".to_vec());
        let mut op = lager.store_at(&address, "source".to_string(), 79, 1);
        for _ in 0..requests {
            let reply = disk.serve(op.request(), &source, &[]);
            op = match op.resume(reply) {
                Step::Perform(next) => next,
                Step::Finished(_) => panic!("the store has five requests"),
            };
        }
        retrieve(&lager, &mut disk, &address).unwrap();
        let (kind, bytes) = disk.extracted.clone().unwrap();
        if requests < 4 {
            assert_eq!(kind, Kind::Dir);
            assert_eq!(unpack(&bytes)["x"], b"x");
        } else {
            assert_eq!((kind, bytes), (Kind::File, b"new".to_vec()));
        }
        let mut lru = LRU::new(lager.clone());
        scan(&mut lru, &mut disk).unwrap();
        assert_eq!(lru.entries(), if requests < 4 { 1 } else { 2 });
    }
}

#[test]
fn an_entry_that_vanishes_while_it_is_opened_is_no_failure() {
    let address = Address::from([5u8; ADDRESS_SIZE]);
    let op = lager("l").open_raw(&address);
    let step = op.resume(Reply::Done);
    match step {
        Step::Perform(touch) => {
            assert!(matches!(touch.request(), Request::Touch));
            let result = touch.resume(failure(IoErrorKind::NotFound));
            assert!(matches!(result, Step::Finished(Ok(Kind::File))));
        }
        _ => panic!("expected another request"),
    }
}

#[test]
fn removing_an_absent_entry_is_not_an_error() {
    let lager = lager("l");
    let mut disk = Disk::new();
    let address = Address::from([6u8; ADDRESS_SIZE]);
    remove(&lager, &mut disk, &address).unwrap();

    store_raw(&lager, &mut disk, &address, Kind::Dir, 0, b"blob").unwrap();
    remove(&lager, &mut disk, &address).unwrap();
    assert!(disk.files.is_empty());
    assert!(matches!(retrieve(&lager, &mut disk, &address), Err(Error::NotFound { .. })));
}

#[test]
fn an_entry_is_removed_only_if_unused() {
    let lager = lager("l");
    let mut disk = Disk::new();
    let address = Address::from([6u8; ADDRESS_SIZE]);
    assert!(!run_removal(lager.remove_if_unused_since(&address, 100), &mut disk).unwrap());

    disk.now = 10;
    store_raw(&lager, &mut disk, &address, Kind::Dir, 0, b"blob").unwrap();
    assert!(!run_removal(lager.remove_if_unused_since(&address, 9), &mut disk).unwrap());
    assert_eq!(disk.files.len(), 1);
    assert!(run_removal(lager.remove_if_unused_since(&address, 10), &mut disk).unwrap());
    assert!(disk.files.is_empty());
}

#[test]
fn eviction_skips_entries_used_after_the_scan() {
    let lager = lager("lru_touch");
    let mut disk = Disk::new();
    let source = Source::File(b"0123456789".to_vec());
    let old = Address::from([1u8; ADDRESS_SIZE]);
    let new = Address::from([2u8; ADDRESS_SIZE]);
    store_at(&lager, &mut disk, &old, &source).unwrap();
    disk.now += 50 * MILLISECOND;
    store_at(&lager, &mut disk, &new, &source).unwrap();

    let mut lru = LRU::new(lager.clone());
    scan(&mut lru, &mut disk).unwrap();
    // Between the scan and the eviction, `old` gets used.
    disk.now += 50 * MILLISECOND;
    retrieve(&lager, &mut disk, &old).unwrap();

    let size = lru.lager_size();
    let (lru, evicted) = evict_until(lru, &mut disk, 0);
    let evicted = evicted.unwrap();
    let addresses: Vec<_> = evicted.iter().map(|e| e.address).collect();
    assert_eq!(addresses, vec![new], "only the untouched entry is removed");
    assert!(open_raw(&lager, &mut disk, &old).is_ok(), "the touched entry survives");
    assert_eq!(lru.lager_size(), size - evicted[0].size, "and stays counted");
    assert_eq!(lru.entries(), 0);
}

#[test]
fn scan_removes_stale_temp_files_and_keeps_fresh_ones() {
    let mut disk = Disk::new();
    disk.now = STALE_TEMP_AGE * 10;
    let shard = |name: String| vec!["aa".to_string(), "bb".to_string(), name];
    let stale = shard(format!("aabb{}-1-1", TEMP_SUFFIX));
    let fresh = shard(format!("aabb{}-1-2", TEMP_SUFFIX));
    let modified = disk.now - STALE_TEMP_AGE - 1_000_000_000;
    disk.files.insert(stale.clone(), (b"x".to_vec(), modified));
    disk.files.insert(fresh.clone(), (b"x".to_vec(), disk.now));

    let mut lru = LRU::new(lager("lru_tmp"));
    scan(&mut lru, &mut disk).unwrap();
    assert_eq!(lru.entries(), 0);
    assert_eq!(lru.lager_size(), 0);
    assert!(!disk.files.contains_key(&stale), "stale temp file should be removed");
    assert!(disk.files.contains_key(&fresh), "fresh temp file should be kept");
}

#[test]
fn temp_files_are_stale_past_an_hour() {
    let listed = |modified: i128| Listed {
        name: "aabb.tmp-1-1".to_string(),
        is_file: true,
        len: 1,
        modified: Ok(modified),
    };
    let mut lru = LRU::new(lager("l"));
    assert_eq!(STALE_TEMP_AGE, 3_600_000_000_000);
    assert!(!lru.visit(listed(0), STALE_TEMP_AGE).unwrap());
    assert!(lru.visit(listed(0), STALE_TEMP_AGE + 1).unwrap());
    assert!(!lru.visit(listed(50), 0).unwrap(), "a time to come is not stale");
    assert!(!lru.visit(listed(i128::MAX), i128::MIN).unwrap());
    assert!(lru.visit(listed(i128::MIN), i128::MAX).unwrap());
    let unknown = Listed {
        name: "aabb.tmp-1-1".to_string(),
        is_file: true,
        len: 1,
        modified: Err(IoError { kind: IoErrorKind::Other, message: "no time".to_string() }),
    };
    assert!(!lru.visit(unknown, i128::MAX).unwrap());
}

#[test]
fn test_lru() {
    let lager = lager("lru_test");
    let mut disk = Disk::new();

    let addr1 = Address::from([1u8; ADDRESS_SIZE]);
    let addr2 = Address::from([2u8; ADDRESS_SIZE]);
    let addr3 = Address::from([3u8; ADDRESS_SIZE]);
    store_at(&lager, &mut disk, &addr1, &Source::File(b"Content 1".to_vec())).unwrap();
    store_at(&lager, &mut disk, &addr2, &Source::File(b"Content 2 longer".to_vec())).unwrap();
    let third = Source::File(b"Content 3 even longer text".to_vec());
    store_at(&lager, &mut disk, &addr3, &third).unwrap();

    disk.now += 50 * MILLISECOND;
    retrieve(&lager, &mut disk, &addr3).unwrap();
    disk.now += 50 * MILLISECOND;
    retrieve(&lager, &mut disk, &addr2).unwrap();

    let mut lru = LRU::new(lager.clone());
    scan(&mut lru, &mut disk).unwrap();
    assert_eq!(lru.entries(), 3);
    assert!(lru.lager_size() > 0);
    let initial_size = lru.lager_size();

    let target_size = 2 * initial_size / 3;
    let (lru, evicted) = evict_until(lru, &mut disk, target_size);
    evicted.unwrap();

    assert!(lru.lager_size() <= target_size);
    let result1 = retrieve(&lager, &mut disk, &addr1);
    assert!(result1.is_err(), "Oldest file (addr1) should have been evicted");
    let result2 = retrieve(&lager, &mut disk, &addr2);
    if lru.lager_size() > 0 {
        assert!(result2.is_ok(), "Most recently used file (addr2) should be preserved");
    }
}

#[test]
fn a_scan_and_a_pass_limit_what_is_on_disk() {
    let lager = lager("l");
    for target in [0, 9, 10, 34, 35, 59, 60, 100] {
        let mut disk = Disk::new();
        for (i, size) in [10usize, 25, 5, 20].iter().enumerate() {
            disk.now = i as i128;
            let address = Address::from([i as u8; ADDRESS_SIZE]);
            let kind = if i % 2 == 0 { Kind::File } else { Kind::Dir };
            store_raw(&lager, &mut disk, &address, kind, i as u64, &vec![0; *size]).unwrap();
        }
        let mut lru = LRU::new(lager.clone());
        scan(&mut lru, &mut disk).unwrap();
        let (lru, evicted) = evict_until(lru, &mut disk, target);
        evicted.unwrap();
        let on_disk: usize = disk.files.values().map(|f| f.0.len()).sum();
        assert!(on_disk as u64 <= target, "{on_disk} {target}");
        assert_eq!(lru.lager_size(), on_disk as u64);
        assert_eq!(lru.entries(), disk.files.len());
    }
}

#[test]
fn eviction_goes_from_the_oldest_and_stops_at_the_target() {
    let lager = lager("l");
    let mut disk = Disk::new();
    let times = [30, 10, 20];
    for (i, time) in times.iter().enumerate() {
        disk.now = *time;
        let address = Address::from([i as u8; ADDRESS_SIZE]);
        store_raw(&lager, &mut disk, &address, Kind::File, i as u64, &[0; 10]).unwrap();
    }
    let mut lru = LRU::new(lager);
    scan(&mut lru, &mut disk).unwrap();
    assert_eq!(lru.lager_size(), 30);
    let (lru, evicted) = evict_until(lru, &mut disk, 10);
    let evicted = evicted.unwrap();
    assert_eq!(evicted.len(), 2);
    assert_eq!(evicted[0].address, Address::from([1; ADDRESS_SIZE]));
    assert_eq!((evicted[0].last_used, evicted[0].size), (10, 10));
    assert_eq!(evicted[1].address, Address::from([2; ADDRESS_SIZE]));
    assert_eq!(evicted[1].last_used, 20);
    assert_eq!(lru.lager_size(), 10);
    assert_eq!(lru.entries(), 1);
    assert_eq!(lru.store().dir(), "l");

    let (lru, evicted) = evict_until(lru, &mut disk, 10);
    assert!(evicted.unwrap().is_empty());
    assert_eq!(lru.entries(), 1);
}

#[test]
fn an_error_ends_the_eviction() {
    let lager = lager("l");
    let mut disk = Disk::new();
    for i in 0..2u8 {
        disk.now += 1;
        let address = Address::from([i; ADDRESS_SIZE]);
        store_raw(&lager, &mut disk, &address, Kind::File, i as u64, &[0; 7]).unwrap();
    }
    let mut lru = LRU::new(lager);
    scan(&mut lru, &mut disk).unwrap();
    match lru.evict_until(0) {
        EvictStep::Remove(eviction) => {
            let error = IoError { kind: IoErrorKind::Other, message: "denied".to_string() };
            match eviction.resume(Err(Error::Io(error))) {
                EvictStep::Done { lru, result } => {
                    assert!(matches!(result, Err(Error::Io(e)) if e.message == "denied"));
                    assert_eq!(lru.lager_size(), 14);
                    assert_eq!(lru.entries(), 1);
                }
                _ => panic!("expected the end"),
            }
        }
        _ => panic!("expected a candidate"),
    }
}

#[test]
fn a_scan_stops_at_what_it_cannot_read() {
    let file = |name: &str, len: u64, modified: Result<i128, IoError>| {
        Ok(Listed { name: name.to_string(), is_file: true, len, modified })
    };
    let name = |i: u8| entry_path(&Address::from([i; ADDRESS_SIZE]), Kind::Dir)[2].clone();
    let lost = || Err(IoError { kind: IoErrorKind::Other, message: "lost".to_string() });

    let mut lru = LRU::new(lager("l"));
    let scan = lru.scan(
        vec![file(&name(1), 5, Ok(1)), file("README", 6, Ok(1)), file(&name(2), 7, Ok(1))],
        0,
    );
    assert!(matches!(
        scan.result,
        Err(Error::InvalidAddress(FromHexError::InvalidHexCharacter { c: 'R', index: 0 }))
    ));
    assert_eq!((lru.entries(), lru.lager_size()), (1, 11));

    let mut lru = LRU::new(lager("l"));
    let scan = lru.scan(vec![file("abcd.zst", 6, lost())], 0);
    assert!(matches!(scan.result, Err(Error::Runtime { .. })));

    let mut lru = LRU::new(lager("l"));
    let scan = lru.scan(vec![file(&name(1), 5, lost()), file(&name(2), 7, Ok(1))], 0);
    assert!(matches!(scan.result, Err(Error::Io(e)) if e.message == "lost"));
    assert_eq!((lru.entries(), lru.lager_size()), (0, 5));

    let mut lru = LRU::new(lager("l"));
    let walk = Err(Error::WalkDir("denied".to_string()));
    let scan = lru.scan(vec![file(&name(1), 5, Ok(1)), walk], 0);
    assert!(matches!(scan.result, Err(Error::WalkDir(_))));
    assert_eq!((lru.entries(), lru.lager_size()), (1, 5));
}

#[test]
fn entries_stand_two_levels_deep() {
    let mut bytes = [0u8; ADDRESS_SIZE];
    bytes[0] = 0xab;
    bytes[1] = 0xcd;
    let address = Address::from(bytes);
    let hex = format!("abcd{}", "00".repeat(62));
    let path = entry_path(&address, Kind::File);
    assert_eq!(path, vec!["ab".to_string(), "cd".to_string(), format!("{hex}.zst")]);
    let path = entry_path(&address, Kind::Dir);
    assert_eq!(path[2], format!("{hex}.tar.zst"));
    let path = temp_path(&address, Kind::Dir, 12, 345);
    assert_eq!(path[2], format!("{hex}.tar.zst.tmp-12-345"));
}

#[test]
fn kinds_have_names() {
    for kind in [Kind::File, Kind::Dir] {
        assert_eq!(Kind::parse(kind.as_str()), Some(kind));
    }
    assert_eq!(Kind::File.as_str(), "file");
    assert_eq!(Kind::Dir.as_str(), "dir");
    assert_eq!(Kind::parse("File"), None);
    assert_eq!(Kind::parse(""), None);
}

#[test]
fn addresses_are_hexadecimal() {
    let hex = "0123456789abcdef".repeat(8);
    let address = Address::from_hex(&hex).unwrap();
    assert_eq!(address.to_hex(), hex);
    assert_eq!(Address::from_hex(&hex.to_uppercase()).unwrap(), address);
    assert_eq!(Address::try_from(&[0x5au8; 64][..]).unwrap(), Address::from([0x5a; 64]));

    match Address::from_hex("abcd") {
        Err(Error::Runtime { msg }) => assert_eq!(
            msg,
            "Invalid address length (2). Only 64 byte addresses are supported."
        ),
        _ => panic!("expected an error"),
    }
    assert!(matches!(
        Address::from_hex("abc"),
        Err(Error::InvalidAddress(FromHexError::OddLength))
    ));
    assert!(matches!(
        Address::from_hex("abcg"),
        Err(Error::InvalidAddress(FromHexError::InvalidHexCharacter { c: 'g', index: 3 }))
    ));
    match Address::try_from(&[0u8; 3][..]) {
        Err(e) => assert_eq!(
            e.message(),
            "Invalid address length (3). Only 64 byte addresses are supported."
        ),
        _ => panic!("expected an error"),
    }
}

#[test]
fn errors_have_messages() {
    let address = Address::from([0x11; ADDRESS_SIZE]);
    assert_eq!(
        Error::NotFound { address }.message(),
        format!("Address not found: {}", "11".repeat(64))
    );
    assert_eq!(
        Error::NoSuchFile { path: "/x".to_string() }.message(),
        "No such file or directory: /x"
    );
    assert_eq!(Error::InvalidAddress(FromHexError::OddLength).message(), "Invalid address");
    let io = IoError { kind: IoErrorKind::Other, message: "m".to_string() };
    assert_eq!(Error::Io(io).message(), "Io");
    assert_eq!(Error::WalkDir("w".to_string()).message(), "WalkDir");
}

#[test]
fn compression_is_lossless() {
    let data = b"halide ".repeat(1000);
    let frame = compress(&data).unwrap();
    assert!(frame.len() < data.len() / 10);
    assert_eq!(frame, zstd::encode_all(&data[..], 1).unwrap());
    assert_eq!(decompress(&frame).unwrap(), data);
    assert_eq!(decompress(&compress(&[]).unwrap()).unwrap(), Vec::<u8>::new());
    match decompress(b"no frame") {
        Err(Error::Io(e)) => assert_eq!(e.kind, IoErrorKind::Other),
        _ => panic!("expected an error"),
    }
}

fn header(headers: &[Header], name: &str) -> Option<String> {
    headers.iter().find(|h| h.name == name).map(|h| h.value.clone())
}

#[test]
fn what_one_machine_stored_another_retrieves() {
    let address = Address::from([8u8; ADDRESS_SIZE]);
    let token = Some("secret".to_string());
    let remote = Remote::new("http://host/", token.clone(), "agent".to_string());
    let (mut here, mut server, mut there) = (Disk::new(), Disk::new(), Disk::new());
    let store = lager("l");
    let source = Source::Dir(archive(&[("x.o", b"object")]));
    store_at(&store, &mut here, &address, &source).unwrap();

    // One client uploads.
    let mut upload = remote.upload_from(&address);
    let result = loop {
        let heard = match upload.request(&remote) {
            Deed::Open => Heard::Opened(open_raw(&store, &mut here, &address)),
            Deed::Measure => Heard::Measured(Ok(here.opened_bytes().len() as u64)),
            Deed::Send(request) => {
                let hex = request.url.rsplit('/').next().unwrap();
                let at = BlobAddress::from_segment(Some(hex)).unwrap().0;
                let authorization = header(&request.headers, "authorization");
                let kind = header(&request.headers, "x-lager-kind");
                match blobs::put(&token, authorization.as_deref(), kind.as_deref()) {
                    Upload::Accepted(kind) => {
                        let blob = here.opened_bytes();
                        let stored = store_raw(&store, &mut server, &at, kind, 0, &blob);
                        let reply = blobs::put_stored(&Some(stored), blob.len() as u64);
                        Heard::Answer { status: reply.response.status, kind: None }
                    }
                    Upload::Refused(_) => panic!("expected the upload to begin"),
                }
            }
            Deed::StoreBody(_) => panic!("an upload stores nothing"),
        };
        match upload.resume(&remote, heard) {
            RemoteStep::Perform(next) => upload = next,
            RemoteStep::Finished(result) => break result,
        }
    };
    result.unwrap();

    // Another downloads.
    let mut fetch = remote.fetch_into(&address);
    let result = loop {
        let heard = match fetch.request(&remote) {
            Deed::Send(_) => {
                let kind = open_raw(&store, &mut server, &address).unwrap();
                let len = server.opened_bytes().len() as u64;
                let reply = blobs::get(&blobs::open_blob(Ok((kind, Ok(len)))));
                Heard::Answer {
                    status: reply.response.status,
                    kind: header(&reply.response.headers, "x-lager-kind"),
                }
            }
            Deed::StoreBody(kind) => {
                let blob = server.opened_bytes();
                Heard::Stored(store_raw(&store, &mut there, &address, kind, 0, &blob))
            }
            _ => panic!("a download reads no blob"),
        };
        match fetch.resume(&remote, heard) {
            RemoteStep::Perform(next) => fetch = next,
            RemoteStep::Finished(result) => break result,
        }
    };
    assert!(result.unwrap());

    retrieve(&store, &mut there, &address).unwrap();
    let (kind, bytes) = there.extracted.unwrap();
    assert_eq!(kind, Kind::Dir);
    assert_eq!(unpack(&bytes)["x.o"], b"object");
}
