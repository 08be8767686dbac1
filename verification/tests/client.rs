//! Addresses, path stripping, and the course of an invocation.

use halide_cache::address::{Address, ADDRESS_SIZE};
use halide_cache::client::{
    collect_zivid_env, key_inputs, output, retrieve_both, try_cleaning_up, Invocation, LookupError,
    Output, Outputs, Part, RootSearch, RootStep, MAX_CACHE_SIZE_BYTES,
};
use halide_cache::error::{Error, IoError, IoErrorKind};
use halide_cache::flow::{Answer, Failure, Flow, FlowStep, Stage, Warning};
use halide_cache::http::{BlobRequest, Method};
use halide_cache::key::{KeyInputs, ESCAPED_KEY_SCHEME_VERSION, KEY_SCHEME_VERSION};
use halide_cache::lager::{Kind, Lager};
use halide_cache::lru::{EvictStep, Listed, LRU};
use halide_cache::order::sort;
use halide_cache::remote::{Deed, Heard, Remote, RemoteError, RemoteStep, UploadFrom};
use halide_cache::strip::{normalize_separators, remove_occurrences, PathStripper};
use halide_cache::text::write_decimal;

fn stripper(dirs: &[&str], windows: bool) -> PathStripper {
    PathStripper::new(&dirs.iter().map(|d| d.to_string()).collect(), windows)
}

fn strings(texts: &[&str]) -> Vec<String> {
    texts.iter().map(|t| t.to_string()).collect()
}

#[test]
fn strips_prefix_anywhere_in_argument() {
    let stripper = stripper(&["/home/user/repo", "/opt/conan/"], false);

    assert_eq!(stripper.strip("/home/user/repo/build/x.o"), "build/x.o");
    assert_eq!(stripper.strip("--output=/home/user/repo/build/x.o"), "--output=build/x.o");
    assert_eq!(stripper.strip("/opt/conan/halide/bin/gen"), "halide/bin/gen");
    assert_eq!(stripper.strip("target=x86-64-linux"), "target=x86-64-linux");
}

#[test]
fn root_prefix_is_ignored() {
    let stripper = stripper(&["/"], false);
    assert_eq!(stripper.strip("/usr/bin/gen"), "/usr/bin/gen");
}

#[test]
fn nested_prefixes_are_stripped_longest_first() {
    for dirs in [["/repo", "/repo/sdk/build"], ["/repo/sdk/build", "/repo"]] {
        let stripper = stripper(&dirs, false);
        assert_eq!(stripper.strip("/repo/sdk/build/x.o"), "x.o");
        assert_eq!(stripper.strip("/repo/sdk/x.o"), "sdk/x.o");
    }
}

#[test]
fn every_occurrence_is_stripped() {
    let stripper = stripper(&["/r", "/r/", ""], false);
    assert_eq!(stripper.strip("-I/r/a:/r/b"), "-Ia:b");
    assert_eq!(stripper.strip("/r"), "/r");
}

#[test]
fn occurrences_do_not_overlap() {
    assert_eq!(remove_occurrences("aaaaa", "aa"), "a");
    assert_eq!(remove_occurrences("abcabc", "bc"), "aa");
    assert_eq!(remove_occurrences("abc", ""), "abc");
    assert_eq!(remove_occurrences("", "a"), "");
    assert_eq!(remove_occurrences("aabb", "ab"), "ab");
    assert_eq!(remove_occurrences("h\u{e9}llo/", "\u{e9}l"), "hlo/");
}

#[test]
fn windows_and_unix_agree() {
    let windows = stripper(&["C:\\repo"], true);
    let unix = stripper(&["/home/me/repo"], false);
    assert_eq!(windows.strip("--out=C:\\repo\\build\\x.o"), "--out=build/x.o");
    assert_eq!(unix.strip("--out=/home/me/repo/build/x.o"), "--out=build/x.o");
    assert_eq!(normalize_separators("a\\b", true), "a/b");
    assert_eq!(normalize_separators("a\\b", false), "a\\b");
}

fn inputs() -> KeyInputs {
    KeyInputs {
        os: "linux".to_string(),
        arch: "x86_64".to_string(),
        dependencies: vec![b"dep one".to_vec(), b"dep two".to_vec()],
        env: strings(&["ZIVID_A=1"]),
        cmdline: strings(&["bin/gen", "", "-o"]),
        builder_id: Some("halide/1".to_string()),
    }
}

#[test]
fn the_stream_is_fields_and_groups() {
    let stream = inputs().stream("build/x.o");
    let expected = b"halide-cache-key-v2\0linux\0x86_64\0halide/1\0\0build/x.o\0\0\
        dep one\0dep two\0\0ZIVID_A=1\0\0bin/gen\0\0-o\0\0";
    assert_eq!(stream, expected.to_vec());
    assert_eq!(KEY_SCHEME_VERSION, "halide-cache-key-v2");
}

#[test]
fn the_address_is_the_hash_of_the_stream() {
    let inputs = inputs();
    let mut hash = [0u8; ADDRESS_SIZE];
    let mut hasher = blake3::Hasher::new();
    for field in inputs.stream("build/x.o").chunks(3) {
        hasher.update(field);
    }
    hasher.finalize_xof().fill(&mut hash);
    assert_eq!(inputs.address_for("build/x.o"), Address::from(hash));
    assert_ne!(inputs.address_for("build/x.h"), Address::from(hash));
}

#[test]
fn every_input_counts() {
    let address = inputs().address_for("p");
    let mut other = inputs();
    other.os = "windows".to_string();
    assert_ne!(other.address_for("p"), address);
    let mut other = inputs();
    other.arch = "aarch64".to_string();
    assert_ne!(other.address_for("p"), address);
    let mut other = inputs();
    other.dependencies = vec![b"dep onedep two".to_vec()];
    assert_ne!(other.address_for("p"), address);
    let mut other = inputs();
    other.env = Vec::new();
    assert_ne!(other.address_for("p"), address);
    let mut other = inputs();
    other.cmdline = strings(&["bin/gen", "-o"]);
    assert_ne!(other.address_for("p"), address);
    let mut other = inputs();
    other.builder_id = Some("halide/2".to_string());
    assert_ne!(other.address_for("p"), address);
    assert_eq!(inputs().address_for("p"), address);
}

#[test]
fn no_builder_counts_as_an_empty_one() {
    let mut none = inputs();
    none.builder_id = None;
    let mut empty = inputs();
    empty.builder_id = Some(String::new());
    assert_eq!(none.stream("p"), empty.stream("p"));
}

#[test]
fn fields_that_move_between_groups_make_another_stream() {
    let mut a = inputs();
    a.env = strings(&["x"]);
    a.cmdline = strings(&["y"]);
    let mut b = inputs();
    b.env = strings(&["x", "y"]);
    b.cmdline = Vec::new();
    assert_ne!(a.stream("p"), b.stream("p"));
}

fn stream_of(dependencies: &[&[u8]], env: &[&str], cmdline: &[&str]) -> Vec<u8> {
    let mut inputs = inputs();
    inputs.dependencies = dependencies.iter().map(|d| d.to_vec()).collect();
    inputs.env = strings(env);
    inputs.cmdline = strings(cmdline);
    inputs.stream("p")
}

#[test]
fn a_nul_in_a_dependency_does_not_split_it() {
    let mut two = inputs();
    two.dependencies = vec![b"a".to_vec(), b"b".to_vec()];
    let mut one = inputs();
    one.dependencies = vec![b"a\0b".to_vec()];
    assert_ne!(two.stream("p"), one.stream("p"));
    assert_ne!(two.address_for("p"), one.address_for("p"));
}

#[test]
fn an_empty_dependency_does_not_end_the_group() {
    assert_ne!(stream_of(&[b"", b"X=1"], &[], &[]), stream_of(&[], &["X=1"], &[""]));
    assert_ne!(stream_of(&[b""], &[], &[]), stream_of(&[], &[], &[""]));
    assert_ne!(stream_of(&[b"", b""], &[], &[]), stream_of(&[b""], &[], &[]));
}

#[test]
fn contents_of_dependencies_are_told_apart() {
    let contents: [&[u8]; 14] = [
        b"", b"\0", b"\x01", b"\x02", b"\x03", b"\0\0", b"\x01\x01", b"\x01\x02", b"\x01\x03",
        b"\x01\0", b"\0\x01", b"a", b"a\0", b"\xff\0",
    ];
    for (i, a) in contents.iter().enumerate() {
        for (j, b) in contents.iter().enumerate() {
            let same = stream_of(&[a], &[], &[]) == stream_of(&[b], &[], &[]);
            assert_eq!(same, i == j, "{a:?} {b:?}");
        }
    }
}

#[test]
fn bytes_of_dependencies_are_escaped() {
    let mut inputs = inputs();
    inputs.dependencies = vec![b"a\0b\x01c\x02".to_vec(), Vec::new()];
    let expected = b"halide-cache-key-v3\0linux\0x86_64\0halide/1\0\0p\0\0\
        a\x01\x01b\x01\x02c\x02\0\x01\x03\0\0ZIVID_A=1\0\0bin/gen\0\0-o\0\0";
    assert_eq!(inputs.stream("p"), expected.to_vec());
}

#[test]
fn plain_dependencies_stand_as_they_are() {
    let mut inputs = inputs();
    inputs.dependencies = vec![b"a\x01b".to_vec(), b"\x01\x03".to_vec()];
    let expected = b"halide-cache-key-v2\0linux\0x86_64\0halide/1\0\0p\0\0\
        a\x01b\0\x01\x03\0\0ZIVID_A=1\0\0bin/gen\0\0-o\0\0";
    assert_eq!(inputs.stream("p"), expected.to_vec());
    inputs.dependencies = Vec::new();
    assert!(inputs.stream("p").starts_with(b"halide-cache-key-v2\0"));
}

#[test]
fn one_dependency_that_needs_escaping_changes_the_version() {
    assert_eq!(ESCAPED_KEY_SCHEME_VERSION, "halide-cache-key-v3");
    let verbatim = stream_of(&[b"\x01\x03"], &[], &[]);
    let escaped = stream_of(&[b""], &[], &[]);
    assert!(verbatim.starts_with(b"halide-cache-key-v2\0"));
    assert!(escaped.starts_with(b"halide-cache-key-v3\0"));
    assert!(stream_of(&[b"a", b"b\0"], &[], &[]).starts_with(b"halide-cache-key-v3\0"));
}

#[test]
fn the_environment_is_picked_and_sorted() {
    let vars: Vec<(String, String)> = [("ZIVID_B", "2"), ("PATH", "/bin"), ("ZIVID_A", "x=y")]
        .iter()
        .map(|(k, v)| (k.to_string(), v.to_string()))
        .collect();
    assert_eq!(collect_zivid_env(&vars), strings(&["ZIVID_A=x=y", "ZIVID_B=2"]));
    let odd = vec![("ZIVID".to_string(), "1".to_string()), ("zivid_".to_string(), "2".to_string())];
    assert_eq!(collect_zivid_env(&odd), Vec::<String>::new());
}

#[test]
fn sorting_is_by_bytes() {
    let texts = strings(&["b", "a", "ab", "", "B", "\u{e9}", "z", "a"]);
    assert_eq!(sort(texts), strings(&["", "B", "a", "a", "ab", "b", "z", "\u{e9}"]));
}

fn invocation(base: &str, vars: &[(&str, &str)]) -> Invocation {
    Invocation {
        os: "linux".to_string(),
        arch: "x86_64".to_string(),
        dependencies: vec![b"contents".to_vec()],
        vars: vars.iter().map(|(k, v)| (k.to_string(), v.to_string())).collect(),
        builder: vec![format!("{base}/bin/gen"), format!("--out={base}/build")],
        builder_id: None,
    }
}

#[test]
fn addresses_are_identical_across_machines() {
    let here = stripper(&["/home/me/repo"], false);
    let there = stripper(&["/ci/agent7/work", "/"], false);
    let a = key_inputs(invocation("/home/me/repo", &[("ZIVID_X", "1"), ("ZIVID_Y", "2")]), &here);
    let b = key_inputs(invocation("/ci/agent7/work", &[("ZIVID_Y", "2"), ("ZIVID_X", "1")]), &there);
    assert_eq!(a.cmdline, strings(&["bin/gen", "--out=build"]));
    let x = output(&a, &here, "/home/me/repo/build/x.o".to_string(), "x.o".to_string());
    let y = output(&b, &there, "/ci/agent7/work/build/x.o".to_string(), "x.o".to_string());
    assert_eq!(x.address, y.address);
    assert_eq!(x.path, "/home/me/repo/build/x.o");
    assert_eq!(x.address, a.address_for("build/x.o"));
}

fn some_output(name: &str) -> Output {
    Output {
        path: format!("/out/{name}"),
        name: name.to_string(),
        address: Address::from([1; ADDRESS_SIZE]),
    }
}

#[test]
fn the_target_is_the_base_name() {
    let target = |name: &str| {
        Outputs { object: some_output(name), header: some_output("h") }.target()
    };
    assert_eq!(target("kernel.o"), "kernel");
    assert_eq!(target("kernel.v2.o"), "kernel");
    assert_eq!(target("kernel"), "kernel");
    assert_eq!(target(".hidden"), ".hidden");
    assert_eq!(target(".hidden.o"), ".hidden");
    let outputs = Outputs { object: some_output("x.o"), header: some_output("x.h") };
    let names: Vec<&str> = outputs.iter().iter().map(|o| o.name.as_str()).collect();
    assert_eq!(names, vec!["x.o", "x.h"]);
    assert_eq!(outputs.get(Part::Object).name, "x.o");
    assert_eq!(outputs.get(Part::Header).name, "x.h");
}

fn not_found() -> Error {
    Error::NotFound { address: Address::from([0; ADDRESS_SIZE]) }
}

fn broken() -> Error {
    Error::Runtime { msg: "broken".to_string() }
}

#[test]
fn outputs_are_retrieved_together() {
    assert!(matches!(retrieve_both(Ok(()), Ok(())), Ok(true)));
    assert!(matches!(retrieve_both(Err(not_found()), Err(not_found())), Ok(false)));

    let e = retrieve_both(Ok(()), Err(not_found())).unwrap_err();
    assert!(matches!(e, LookupError::Header { .. }));
    assert_eq!(e.context(), "Retrieving the object was successful");
    assert_eq!(e.cause(), not_found().message());

    let e = retrieve_both(Err(broken()), Ok(())).unwrap_err();
    assert!(matches!(e, LookupError::Object { .. }));
    assert_eq!(e.context(), "Retrieving the header was successful");
    assert_eq!(e.cause(), "broken");

    let e = retrieve_both(Err(broken()), Err(not_found())).unwrap_err();
    assert!(matches!(e, LookupError::Both { .. }));
    assert_eq!(e.context(), not_found().message());
    assert_eq!(e.cause(), "broken");
}

#[test]
fn the_nearest_root_is_found() {
    match RootSearch::start().resume(false, true) {
        RootStep::Up(next) => {
            assert!(matches!(next.resume(true, true), RootStep::Found { ups: 1 }));
            assert!(matches!(next.resume(false, false), RootStep::Missing));
        }
        _ => panic!("expected to go up"),
    }
    assert!(matches!(RootSearch::start().resume(true, false), RootStep::Found { ups: 0 }));
}

#[test]
fn the_local_cache_is_kept_at_its_size() {
    assert_eq!(MAX_CACHE_SIZE_BYTES, 10 * 1024 * 1024 * 1024);
    let scanned = |len: u64| {
        let mut lru = LRU::new(Lager::new(Ok(())).unwrap());
        let listed = Listed {
            name: format!("{}.zst", "00".repeat(64)),
            is_file: true,
            len,
            modified: Ok(0),
        };
        lru.scan(vec![Ok(listed)], 0).result.unwrap();
        lru
    };
    let step = try_cleaning_up(scanned(MAX_CACHE_SIZE_BYTES));
    assert!(matches!(step, EvictStep::Done { .. }));
    let step = try_cleaning_up(scanned(MAX_CACHE_SIZE_BYTES + 1));
    assert!(matches!(step, EvictStep::Remove(_)));
}

/// Runs an invocation whose stages are answered by a function.
fn course(
    remote: bool,
    read_only: bool,
    answer: impl Fn(Stage) -> Answer,
) -> (Vec<Stage>, Vec<Warning>, Result<(), Failure>) {
    let mut flow = Flow::start(remote, read_only);
    let mut stages = Vec::new();
    let mut warnings = Vec::new();
    loop {
        stages.push(flow.stage);
        match flow.resume(answer(flow.stage)) {
            FlowStep::Go { flow: next, warning } => {
                warnings.extend(warning);
                flow = next;
            }
            FlowStep::Done(result) => return (stages, warnings, result),
        }
    }
}

/// A local miss with everything else in order, and a server that has nothing.
fn miss(stage: Stage) -> Answer {
    match stage {
        Stage::Lookup | Stage::Extract => Answer::Looked(Ok(false)),
        Stage::Fetch(_) => Answer::Fetched(Ok(false)),
        Stage::Discard(_) => Answer::Discarded(Ok(())),
        Stage::Build => Answer::Built(Ok(true)),
        Stage::Store(_) => Answer::Stored(Ok(())),
        Stage::Upload(_) => Answer::Uploaded(Ok(())),
        Stage::Clean => Answer::Cleaned(Ok(())),
    }
}

const OBJECT: Part = Part::Object;
const HEADER: Part = Part::Header;

fn built() -> Vec<Stage> {
    vec![
        Stage::Lookup,
        Stage::Build,
        Stage::Store(OBJECT),
        Stage::Store(HEADER),
        Stage::Clean,
    ]
}

#[test]
fn a_local_hit_is_all() {
    let hit = |stage: Stage| match stage {
        Stage::Lookup => Answer::Looked(Ok(true)),
        _ => panic!("nothing else is done"),
    };
    let (stages, _, result) = course(true, false, hit);
    assert_eq!(stages, vec![Stage::Lookup]);
    assert!(result.is_ok());
}

#[test]
fn a_miss_builds_and_stores() {
    let (stages, warnings, result) = course(false, false, miss);
    assert_eq!(stages, built());
    assert!(warnings.is_empty());
    assert!(result.is_ok());
}

#[test]
fn a_remote_miss_uploads() {
    let (stages, _, result) = course(true, false, miss);
    assert_eq!(
        stages,
        vec![
            Stage::Lookup,
            Stage::Fetch(OBJECT),
            Stage::Build,
            Stage::Store(OBJECT),
            Stage::Store(HEADER),
            Stage::Upload(OBJECT),
            Stage::Upload(HEADER),
            Stage::Clean,
        ]
    );
    assert!(result.is_ok());
    let (stages, _, _) = course(true, true, miss);
    assert!(!stages.iter().any(|s| matches!(s, Stage::Upload(_))), "read only");
}

#[test]
fn a_remote_hit_is_extracted() {
    let hit = |stage: Stage| match stage {
        Stage::Fetch(_) => Answer::Fetched(Ok(true)),
        Stage::Extract => Answer::Looked(Ok(true)),
        _ => miss(stage),
    };
    let (stages, _, result) = course(true, false, hit);
    assert_eq!(
        stages,
        vec![Stage::Lookup, Stage::Fetch(OBJECT), Stage::Fetch(HEADER), Stage::Extract]
    );
    assert!(result.is_ok());
}

#[test]
fn a_partial_remote_hit_is_a_miss() {
    let partial = |stage: Stage| match stage {
        Stage::Fetch(Part::Object) => Answer::Fetched(Ok(true)),
        _ => miss(stage),
    };
    let (stages, warnings, result) = course(true, true, partial);
    assert_eq!(
        stages[1..6],
        [
            Stage::Fetch(OBJECT),
            Stage::Fetch(HEADER),
            Stage::Discard(OBJECT),
            Stage::Discard(HEADER),
            Stage::Build,
        ]
    );
    assert!(warnings.is_empty());
    assert!(result.is_ok());
}

#[test]
fn a_server_outage_never_fails_a_build() {
    let outage = |stage: Stage| match stage {
        Stage::Fetch(_) => Answer::Fetched(Err(RemoteError::Http("refused".to_string()))),
        Stage::Upload(_) => Answer::Uploaded(Err(RemoteError::Unauthorized)),
        _ => miss(stage),
    };
    let (stages, warnings, result) = course(true, false, outage);
    assert!(result.is_ok());
    assert_eq!(warnings.len(), 2);
    assert!(matches!(&warnings[0], Warning::Remote(RemoteError::Http(e)) if e == "refused"));
    let local: Vec<Stage> = stages
        .into_iter()
        .filter(|s| !matches!(s, Stage::Fetch(_) | Stage::Upload(_)))
        .collect();
    assert_eq!(local, built());
}

#[test]
fn what_cannot_be_extracted_is_built() {
    let spoilt = |stage: Stage| match stage {
        Stage::Fetch(_) => Answer::Fetched(Ok(true)),
        Stage::Extract => Answer::Looked(Err(LookupError::Header { cause: broken() })),
        Stage::Discard(Part::Header) => Answer::Discarded(Err(broken())),
        _ => miss(stage),
    };
    let (stages, warnings, result) = course(true, true, spoilt);
    assert_eq!(
        stages[3..7],
        [Stage::Extract, Stage::Discard(OBJECT), Stage::Discard(HEADER), Stage::Build]
    );
    assert!(matches!(&warnings[0], Warning::Extract(_)));
    assert!(matches!(&warnings[1], Warning::Discard(_)));
    assert!(result.is_ok());
}

#[test]
fn local_failures_fail() {
    let fails = |at: Stage| {
        course(false, false, move |stage| {
            if stage != at {
                return miss(stage);
            }
            let io = IoError { kind: IoErrorKind::Other, message: "no".to_string() };
            match stage {
                Stage::Lookup => Answer::Looked(Err(LookupError::Object { cause: broken() })),
                Stage::Build => Answer::Built(Err(io)),
                Stage::Store(_) => Answer::Stored(Err(broken())),
                Stage::Clean => Answer::Cleaned(Err(broken())),
                _ => miss(stage),
            }
        })
        .2
    };
    assert!(matches!(fails(Stage::Lookup), Err(Failure::Lookup(_))));
    assert!(matches!(fails(Stage::Build), Err(Failure::Build(_))));
    assert!(matches!(fails(Stage::Store(OBJECT)), Err(Failure::Store(_))));
    assert!(matches!(fails(Stage::Store(HEADER)), Err(Failure::Store(_))));
    assert!(matches!(fails(Stage::Clean), Err(Failure::Clean(_))));
}

#[test]
fn a_failing_builder_stores_nothing() {
    let failing = |stage: Stage| match stage {
        Stage::Build => Answer::Built(Ok(false)),
        _ => miss(stage),
    };
    let (stages, _, result) = course(true, false, failing);
    assert_eq!(
        stages,
        vec![Stage::Lookup, Stage::Fetch(OBJECT), Stage::Build, Stage::Clean]
    );
    assert!(result.is_ok());
}

fn header<'a>(request: &'a BlobRequest, name: &str) -> Option<&'a str> {
    request.headers.iter().find(|h| h.name == name).map(|h| h.value.as_str())
}

fn sent(deed: Deed) -> BlobRequest {
    match deed {
        Deed::Send(request) => request,
        _ => panic!("expected a request to the server"),
    }
}

fn answer(status: u16, kind: Option<&str>) -> Heard {
    Heard::Answer { status, kind: kind.map(|k| k.to_string()) }
}

#[test]
fn downloads_are_asked_for_and_stored() {
    let address = Address::from([0xab; ADDRESS_SIZE]);
    let remote = Remote::new("http://host:8080//", Some("secret".to_string()), "me".to_string());
    let op = remote.fetch_into(&address);
    let request = sent(op.request(&remote));
    assert_eq!(request.method, Method::Get);
    assert_eq!(request.url, format!("http://host:8080/v1/blobs/{}", "ab".repeat(64)));
    assert_eq!(header(&request, "x-halide-cache-client"), Some("me"));
    assert_eq!(header(&request, "authorization"), None);

    for (name, kind) in [("file", Kind::File), ("dir", Kind::Dir)] {
        match op.resume(&remote, answer(200, Some(name))) {
            RemoteStep::Perform(next) => {
                assert!(matches!(next.request(&remote), Deed::StoreBody(k) if k == kind));
                let step = next.resume(&remote, Heard::Stored(Ok(false)));
                assert!(matches!(step, RemoteStep::Finished(Ok(true))));
                let step = next.resume(&remote, Heard::Stored(Err(broken())));
                assert!(matches!(step, RemoteStep::Finished(Err(RemoteError::Lager(_)))));
            }
            _ => panic!("expected the blob to be stored"),
        }
    }
    let end = |heard: Heard| match op.resume(&remote, heard) {
        RemoteStep::Finished(result) => result,
        _ => panic!("expected the end"),
    };
    assert!(matches!(end(answer(404, None)), Ok(false)));
    assert!(matches!(end(answer(200, Some("tar"))), Err(RemoteError::BadKind)));
    assert!(matches!(end(answer(200, None)), Err(RemoteError::BadKind)));
    assert!(matches!(end(answer(503, Some("file"))), Err(RemoteError::Status(503))));
    let silence = Heard::Silence("refused".to_string());
    assert!(matches!(end(silence), Err(RemoteError::Http(e)) if e == "refused"));
}

fn opened_upload(remote: &Remote, kind: Kind, len: u64) -> UploadFrom {
    let op = remote.upload_from(&Address::from([0xab; ADDRESS_SIZE]));
    assert!(matches!(op.request(remote), Deed::Open));
    let op = match op.resume(remote, Heard::Opened(Ok(kind))) {
        RemoteStep::Perform(next) => next,
        _ => panic!("expected to go on"),
    };
    assert!(matches!(op.request(remote), Deed::Measure));
    match op.resume(remote, Heard::Measured(Ok(len))) {
        RemoteStep::Perform(next) => next,
        _ => panic!("expected to go on"),
    }
}

#[test]
fn uploads_send_what_is_stored() {
    let remote = Remote::new("http://host", Some("secret".to_string()), "me".to_string());
    let op = opened_upload(&remote, Kind::Dir, 1234);
    let request = sent(op.request(&remote));
    assert_eq!(request.method, Method::Put);
    assert_eq!(request.url, format!("http://host/v1/blobs/{}", "ab".repeat(64)));
    assert_eq!(header(&request, "x-lager-kind"), Some("dir"));
    assert_eq!(header(&request, "x-halide-cache-client"), Some("me"));
    assert_eq!(header(&request, "content-length"), Some("1234"));
    assert_eq!(header(&request, "authorization"), Some("Bearer secret"));

    let open = Remote::new("http://host", None, "me".to_string());
    let request = sent(opened_upload(&open, Kind::File, 0).request(&open));
    assert_eq!(header(&request, "authorization"), None);
    assert_eq!(header(&request, "content-length"), Some("0"));

    let end = |heard: Heard| match op.resume(&remote, heard) {
        RemoteStep::Finished(result) => result,
        _ => panic!("expected the end"),
    };
    assert!(end(answer(200, None)).is_ok());
    assert!(end(answer(201, None)).is_ok());
    assert!(matches!(end(answer(401, None)), Err(RemoteError::Unauthorized)));
    assert!(matches!(end(answer(413, None)), Err(RemoteError::Status(413))));
    assert!(matches!(end(Heard::Silence("down".to_string())), Err(RemoteError::Http(_))));
}

#[test]
fn an_upload_fails_with_what_is_not_stored() {
    let remote = Remote::new("http://host", None, "me".to_string());
    let op = remote.upload_from(&Address::from([1; ADDRESS_SIZE]));
    let step = op.resume(&remote, Heard::Opened(Err(not_found())));
    assert!(matches!(
        step,
        RemoteStep::Finished(Err(RemoteError::Lager(Error::NotFound { .. })))
    ));
    let op = match op.resume(&remote, Heard::Opened(Ok(Kind::File))) {
        RemoteStep::Perform(next) => next,
        _ => panic!("expected to go on"),
    };
    let io = IoError { kind: IoErrorKind::Other, message: "m".to_string() };
    let step = op.resume(&remote, Heard::Measured(Err(io)));
    assert!(matches!(step, RemoteStep::Finished(Err(RemoteError::Lager(Error::Io(_))))));
}

#[test]
fn remote_errors_have_messages() {
    assert_eq!(RemoteError::Http("refused".to_string()).message(), "refused");
    assert_eq!(RemoteError::Status(503).message(), "unexpected status 503");
    assert_eq!(
        RemoteError::Unauthorized.message(),
        "uploads rejected: bearer token missing or wrong"
    );
    assert_eq!(RemoteError::BadKind.message(), "missing or invalid x-lager-kind header");
    assert_eq!(RemoteError::Lager(broken()).message(), "broken");
}

#[test]
fn numbers_are_written_in_decimal() {
    for n in [0, 7, 10, 4096, u64::MAX] {
        assert_eq!(write_decimal(n), n.to_string());
    }
}
