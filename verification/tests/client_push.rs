use attic::api::cache_config::{CacheConfig, ChunkingParameters};
use attic::api::upload_path::{ChunkManifestEntry, UploadPathResult, UploadPathResultKind};
use attic::client::api::upload::{RetryStep, UploadAttemptError, UploadPathMetadata};
use attic::client::api::{ApiClient, ApiError, ServerConfig};
use attic::client::error::ClientError;
use attic::client::push::negotiation::{
    negotiate_chunk_manifest, record_chunk, unique_hashes, NegotiatedManifest,
};
use attic::client::push::plan::{PendingPlan, PlanStep, PushPlan};
use attic::client::push::session::{
    BatchState, SessionBatch, SessionQueueCommand, SessionQueuePoll,
};
use attic::client::push::stream::{
    ended_early_text, NegotiatedSender, ReadStep, SendStep, StreamAsyncReader, StreamPoll,
};
use attic::client::push::upload::{
    build_upload_info, negotiated_or_full, prepare_negotiated_upload, should_negotiate,
    upload_result, PathUpload, UploadKind,
};
use attic::names::{CacheName, StorePath, StorePathHash, ValidPathInfo};

fn store_path(hash: &str) -> StorePath {
    StorePath {
        base_name: format!("{hash}-name").into_bytes(),
        hash: StorePathHash::new(hash.to_owned()),
    }
}

fn info(hash: &str, sigs: &[&str]) -> ValidPathInfo {
    ValidPathInfo {
        path: store_path(hash),
        nar_size: 100,
        nar_hash: attic::hash::Hash::sha256_from_bytes(hash.as_bytes()),
        references: vec![b"dep-1".to_vec(), b"dep-2".to_vec()],
        sigs: sigs.iter().map(|s| s.to_string()).collect(),
        ca: Some("fixed:x".to_owned()),
    }
}

fn entry(hash: &str, sigs: &[&str]) -> (StorePathHash, ValidPathInfo) {
    (StorePathHash::new(hash.to_owned()), info(hash, sigs))
}

fn hash(text: &str) -> StorePathHash {
    StorePathHash::new(text.to_owned())
}

fn config(upstream: &[&str]) -> CacheConfig {
    let mut config = CacheConfig::blank();
    config.upstream_cache_key_names = Some(upstream.iter().map(|s| s.to_string()).collect());
    config
}

fn pending(step: PlanStep) -> PendingPlan {
    match step {
        PlanStep::QueryMissing(pending) => pending,
        PlanStep::Done(_) => panic!("there is something to ask the server about"),
    }
}

fn done(step: PlanStep) -> PushPlan {
    match step {
        PlanStep::Done(plan) => plan,
        PlanStep::QueryMissing(_) => panic!("there is nothing to ask the server about"),
    }
}

fn chunks(data: &[&[u8]]) -> Vec<(attic::hash::Hash, usize)> {
    let mut chunks = Vec::new();
    for chunk in data {
        record_chunk(&mut chunks, chunk);
    }
    chunks
}

/// Drives a sender over `pieces`, returning what it sends.
fn send(
    manifest: Vec<ChunkManifestEntry>,
    pieces: &[&[u8]],
) -> Result<Vec<Vec<u8>>, (usize, usize)> {
    let mut sender = NegotiatedSender::new(manifest);
    let mut pieces = pieces.iter();
    let mut sent = Vec::new();
    loop {
        match sender.step() {
            SendStep::NeedData => match pieces.next() {
                Some(piece) => sender.feed(piece.to_vec()),
                None => sender.end(),
            },
            SendStep::Chunk(data) => sent.push(data),
            SendStep::Finished => return Ok(sent),
            SendStep::EndedEarly { expected, got } => return Err((expected, got)),
        }
    }
}

#[test]
fn chunks_are_hashed_in_order_and_asked_about_once() {
    let chunks = chunks(&[b"aa", b"b", b"aa"]);
    assert_eq!(chunks.len(), 3);
    assert_eq!(chunks[0], (attic::hash::Hash::sha256_from_bytes(b"aa"), 2));
    assert_eq!(chunks[1].1, 1);
    assert_eq!(unique_hashes(&chunks), vec![chunks[0].0, chunks[1].0]);
    assert!(unique_hashes(&[]).is_empty());
}

#[test]
fn negotiation_is_pointless_when_everything_is_missing() {
    let chunks = chunks(&[b"aa", b"b", b"aa"]);
    assert!(negotiate_chunk_manifest(&[], &vec![]).is_none());
    assert!(negotiate_chunk_manifest(&chunks, &vec![chunks[0].0, chunks[1].0]).is_none());
    let negotiated = negotiate_chunk_manifest(&chunks, &vec![chunks[0].0]).unwrap();
    assert_eq!(negotiated.total_inline_bytes, 2);
    let inline: Vec<bool> = negotiated.manifest.iter().map(|e| e.inline).collect();
    assert_eq!(inline, vec![true, false, false]);
    let negotiated = negotiate_chunk_manifest(&chunks, &vec![]).unwrap();
    assert_eq!(negotiated.total_inline_bytes, 0);
}

#[test]
fn sent_bytes_do_not_depend_on_how_the_stream_is_cut() {
    let data: &[&[u8]] = &[b"hello", b"", b"brave", b"hello", b"new world"];
    let chunks = chunks(data);
    let missing = vec![chunks[2].0, chunks[4].0];
    let manifest = negotiate_chunk_manifest(&chunks, &missing).unwrap();
    let whole = data.concat();
    let expected = vec![b"brave".to_vec(), b"new world".to_vec()];
    assert_eq!(manifest.total_inline_bytes, 14);

    assert_eq!(send(manifest.manifest.clone(), &[&whole]).unwrap(), expected);
    for size in 1..whole.len() {
        let pieces: Vec<&[u8]> = whole.chunks(size).collect();
        assert_eq!(send(manifest.manifest.clone(), &pieces).unwrap(), expected);
    }
    let with_empty: Vec<&[u8]> = vec![&whole[..3], b"", &whole[3..], b""];
    assert_eq!(send(manifest.manifest.clone(), &with_empty).unwrap(), expected);
}

#[test]
fn a_stream_that_ends_early_is_an_error() {
    let chunks = chunks(&[b"hello", b"world"]);
    let manifest = negotiate_chunk_manifest(&chunks, &vec![chunks[1].0]).unwrap();
    assert_eq!(send(manifest.manifest.clone(), &[b"hello", b"wor"]), Err((5, 3)));
    assert_eq!(send(manifest.manifest, &[]), Err((5, 0)));
    assert_eq!(
        ended_early_text(5, 3),
        "Re-streamed NAR ended early: expected 5 more bytes for a chunk manifest entry but only \
         got 3"
    );
}

#[test]
fn empty_manifest_sends_nothing() {
    assert_eq!(send(vec![], &[b"unread"]).unwrap(), Vec::<Vec<u8>>::new());
}

#[test]
fn reader_hands_out_at_most_what_is_asked_for() {
    let mut reader = StreamAsyncReader::new();
    assert!(reader.is_empty());
    reader.refill(b"abcdef".to_vec());
    let mut buf = Vec::new();
    reader.read(&mut buf, 4);
    assert_eq!(buf, b"abcd");
    assert!(!reader.is_empty());
    reader.read(&mut buf, 0);
    reader.read(&mut buf, 10);
    assert_eq!(buf, b"abcdef");
    assert!(reader.is_empty());
}

#[test]
fn paths_signed_upstream_are_filtered_out() {
    let closure = vec![
        entry("a", &["cache.nixos.org-1:AAAA"]),
        entry("b", &["mine:BBBB"]),
        entry("c", &["cache.nixos.org-1"]),
        entry("d", &["other:x", "cache.nixos.org-1:y:z"]),
    ];
    let config = config(&["cache.nixos.org-1"]);
    let pending = pending(PushPlan::plan(closure, &config, false));
    assert_eq!(pending.num_all_paths, 4);
    let mut asked: Vec<String> =
        pending.store_path_hashes().iter().map(|h| h.as_str().to_owned()).collect();
    asked.sort();
    assert_eq!(asked, vec!["b", "c"]);

    let plan = pending.finish(vec![hash("c"), hash("unknown")]);
    assert_eq!(plan.num_all_paths, 4);
    assert_eq!(plan.num_upstream, 2);
    assert_eq!(plan.num_already_cached, 1);
    assert_eq!(plan.store_path_map.len(), 1);
    assert!(plan.store_path_map.contains_key(&hash("c")));
}

#[test]
fn the_upstream_filter_can_be_ignored() {
    let closure = vec![entry("a", &["up:AAAA"]), entry("a", &["up:BBBB"])];
    let pending = pending(PushPlan::plan(closure, &config(&["up"]), true));
    assert_eq!(pending.num_all_paths, 1);
    // Of two entries for one path, the later one counts.
    assert_eq!(pending.store_path_map.get(&hash("a")).unwrap().sigs[0], "up:BBBB");
}

#[test]
fn plans_without_paths_need_no_server() {
    let plan = done(PushPlan::plan(vec![], &CacheConfig::blank(), false));
    assert_eq!(
        (plan.num_all_paths, plan.num_already_cached, plan.num_upstream),
        (0, 0, 0)
    );
    let plan = done(PushPlan::plan(vec![entry("a", &["up:x"])], &config(&["up"]), false));
    assert_eq!(
        (plan.num_all_paths, plan.num_already_cached, plan.num_upstream),
        (1, 0, 1)
    );
    assert_eq!(plan.store_path_map.len(), 0);
}

#[test]
fn sessions_batch_and_push_each_path_once() {
    let mut session = SessionBatch::new();
    let command = SessionQueueCommand::Paths(vec![store_path("a"), store_path("b")]);
    let state = session.poll(SessionQueuePoll::from_command(Some(command)));
    assert_eq!(state, BatchState::Collecting);
    session.poll(SessionQueuePoll::Paths(vec![store_path("a")]));
    assert_eq!(
        session.poll(SessionQueuePoll::from_command(Some(SessionQueueCommand::Flush))),
        BatchState::Submit { done: false }
    );
    let roots = session.take_roots();
    assert_eq!(roots.len(), 2);
    assert!(session.take_roots().is_empty());

    let plan = |hashes: &[&str]| {
        let closure = hashes.iter().map(|h| entry(h, &[])).collect();
        let missing = hashes.iter().map(|h| hash(h)).collect();
        pending(PushPlan::plan(closure, &CacheConfig::blank(), false)).finish(missing)
    };
    assert_eq!(session.take_plan(plan(&["a", "dep"])).len(), 2);

    session.poll(SessionQueuePoll::Paths(vec![store_path("a"), store_path("c")]));
    assert_eq!(session.poll(SessionQueuePoll::TimedOut), BatchState::Submit { done: false });
    let roots = session.take_roots();
    assert_eq!(roots.len(), 1);
    assert_eq!(roots[0].hash.as_str(), "c");
    let pushed = session.take_plan(plan(&["c", "dep"]));
    assert_eq!(pushed.len(), 1);
    assert_eq!(pushed[0].0.as_str(), "c");
}

#[test]
fn sessions_end_when_told_to_or_closed() {
    let mut session = SessionBatch::new();
    assert_eq!(
        session.poll(SessionQueuePoll::from_command(Some(SessionQueueCommand::Terminate))),
        BatchState::Submit { done: true }
    );
    assert_eq!(
        session.poll(SessionQueuePoll::from_command(None)),
        BatchState::Submit { done: true }
    );
}

#[test]
fn batches_are_pushed_when_they_have_been_collected_long_enough() {
    let mut session = SessionBatch::new();
    session.poll(SessionQueuePoll::Paths(vec![store_path("a")]));
    assert_eq!(session.limit_reached(), BatchState::Submit { done: false });
    assert_eq!(session.take_roots().len(), 1);
}

#[test]
fn failed_negotiations_lead_to_full_uploads() {
    let manifest = NegotiatedManifest { manifest: vec![], total_inline_bytes: 7 };
    let negotiated = negotiated_or_full::<()>(Ok(Some(manifest))).unwrap();
    assert_eq!(negotiated.total_inline_bytes, 7);
    assert!(negotiated_or_full::<()>(Ok(None)).is_none());
    assert!(negotiated_or_full(Err("the server is too old")).is_none());
}

#[test]
fn negotiation_depends_on_the_threshold() {
    let chunking = ChunkingParameters {
        nar_size_threshold: 128,
        min_size: 16,
        avg_size: 64,
        max_size: 256,
    };
    assert!(should_negotiate(Some(&chunking), 128));
    assert!(!should_negotiate(Some(&chunking), 127));
    assert!(!should_negotiate(None, 1000));
    let disabled = ChunkingParameters { nar_size_threshold: 0, ..chunking };
    assert!(!should_negotiate(Some(&disabled), 128));
}

#[test]
fn upload_info_is_taken_from_the_path() {
    let cache = CacheName::new("main".to_owned());
    let full_path = b"/nix/store/h-name".to_vec();
    let upload = build_upload_info(&info("h", &["k:s"]), &full_path, &cache, None).unwrap();
    assert_eq!(upload.cache.as_str(), "main");
    assert_eq!(upload.store_path_hash.as_str(), "h");
    assert_eq!(upload.store_path, "/nix/store/h-name");
    assert_eq!(upload.references, vec!["dep-1", "dep-2"]);
    assert_eq!(upload.sigs, vec!["k:s"]);
    assert_eq!(upload.ca.as_deref(), Some("fixed:x"));
    assert_eq!(upload.nar_size, 100);
    assert!(upload.system.is_none() && upload.deriver.is_none());
    assert!(upload.chunk_manifest.is_none());

    let error = build_upload_info(&info("h", &[]), &vec![0xff], &cache, None).unwrap_err();
    assert_eq!(error.text(), "Path contains non-UTF-8");
    let mut bad = info("h", &[]);
    bad.references.push(vec![0xc0]);
    let error = build_upload_info(&bad, &full_path, &cache, Some(vec![])).unwrap_err();
    assert_eq!(error.text(), "Reference contains non-UTF-8");
}

#[test]
fn negotiated_uploads_use_the_preamble() {
    let config = ServerConfig { endpoint: "https://attic.example/".to_owned(), token: None };
    let client = ApiClient::from_server_config(&config).unwrap();
    let chunks = chunks(&[b"hello", b"world"]);
    let negotiated = negotiate_chunk_manifest(&chunks, &vec![chunks[1].0]).unwrap();
    let request = prepare_negotiated_upload(&client, "{}".to_owned(), &negotiated).unwrap();
    assert!(matches!(&request.metadata, UploadPathMetadata::Preamble(b) if &b[..] == b"{}"));
    assert_eq!(request.content_length, 7);
    assert!(!matches!(
        prepare_negotiated_upload(&client, "\n".to_owned(), &negotiated),
        Err(ClientError::InvalidHeaderValue)
    ));
}

#[test]
fn negotiated_attempt_falls_back_to_the_full_upload() {
    let error = UploadAttemptError::Transport("gone".to_owned());
    let mut upload = PathUpload::new(true);
    assert_eq!(upload.kind(), UploadKind::Negotiated);
    assert_eq!(upload.succeeded(()).attempts, 1);
    assert!(matches!(upload.failed_with(&error, 9), RetryStep::Retry { delay: 0 }));
    assert_eq!(upload.kind(), UploadKind::Full { attempt: 1 });
    assert!(matches!(upload.failed_with(&error, 9), RetryStep::Retry { delay: 9 }));
    let jitter = upload.pick_jitter();
    assert!(jitter <= 1_000_000_000);
    assert!(matches!(upload.failed_with(&error, jitter), RetryStep::Retry { .. }));
    assert_eq!(upload.kind(), UploadKind::Full { attempt: 3 });
    assert_eq!(upload.succeeded("ok").attempts, 3);
    assert!(matches!(upload.failed_with(&error, 9), RetryStep::Stop));
    assert_eq!(PathUpload::new(false).kind(), UploadKind::Full { attempt: 1 });
}

#[test]
fn a_negotiated_attempt_may_fail_for_any_reason() {
    let error = UploadAttemptError::Http(ApiError::Unstructured {
        status: 400,
        message: "refused".to_owned(),
        retry_after: None,
    });
    let mut upload = PathUpload::new(true);
    assert!(upload.pick_jitter() <= 500_000_000);
    assert!(matches!(upload.failed_with(&error, 9), RetryStep::Retry { delay: 0 }));
    assert_eq!(upload.kind(), UploadKind::Full { attempt: 1 });
    assert!(matches!(upload.failed_with(&error, 9), RetryStep::Stop));
    assert_eq!(upload.kind(), UploadKind::Full { attempt: 1 });
}

#[test]
fn a_result_that_cannot_be_read_counts_as_uploaded() {
    assert_eq!(upload_result(None).kind, UploadPathResultKind::Uploaded);
    let result = UploadPathResult {
        kind: UploadPathResultKind::Deduplicated,
        file_size: Some(3),
    };
    let result = upload_result(Some(result));
    assert_eq!(result.kind, UploadPathResultKind::Deduplicated);
    assert_eq!(result.file_size, Some(3));
}

#[test]
fn a_server_reassembles_the_nar_from_manifest_and_body() {
    let data: &[&[u8]] = &[b"one", b"two", b"one", b"three", b"two"];
    let chunks = chunks(data);
    let missing = vec![chunks[1].0];
    let negotiated = negotiate_chunk_manifest(&chunks, &missing).unwrap();
    let body = send(negotiated.manifest.clone(), &[&data.concat()]).unwrap().concat();
    assert_eq!(body.len(), negotiated.total_inline_bytes);

    let mut stored: Vec<(attic::hash::Hash, Vec<u8>)> =
        vec![(chunks[0].0, b"one".to_vec()), (chunks[3].0, b"three".to_vec())];
    let mut rest = &body[..];
    let mut nar: Vec<u8> = Vec::new();
    for entry in &negotiated.manifest {
        if entry.inline {
            stored.push((entry.hash, rest[..entry.size].to_vec()));
            rest = &rest[entry.size..];
        }
        let chunk = stored.iter().find(|(hash, _)| *hash == entry.hash).unwrap();
        nar.extend_from_slice(&chunk.1);
    }
    assert!(rest.is_empty());
    assert_eq!(nar, data.concat());
}

#[test]
fn sessions_remember_paths_that_the_server_already_has() {
    let mut session = SessionBatch::new();
    session.poll(SessionQueuePoll::Paths(vec![store_path("a"), store_path("b")]));
    assert_eq!(session.take_roots().len(), 2);
    let closure = vec![entry("a", &[]), entry("b", &[]), entry("dep", &[])];
    let plan = pending(PushPlan::plan(closure, &CacheConfig::blank(), false)).finish(vec![hash("b")]);
    assert_eq!(plan.num_already_cached, 2);
    let mut cached: Vec<&str> = plan.already_cached.iter().map(|h| h.as_str()).collect();
    cached.sort();
    assert_eq!(cached, vec!["a", "dep"]);
    let pushed = session.take_plan(plan);
    assert_eq!(pushed.len(), 1);
    assert_eq!(pushed[0].0.as_str(), "b");

    let again = vec![store_path("a"), store_path("b"), store_path("dep"), store_path("c")];
    session.poll(SessionQueuePoll::Paths(again));
    let roots = session.take_roots();
    assert_eq!(roots.len(), 1);
    assert_eq!(roots[0].hash.as_str(), "c");
}

/// Polls a reader over what comes of polling a stream, until its end.
fn read_all(events: Vec<StreamPoll>, room: usize) -> (Vec<u8>, Vec<ReadStep>) {
    let mut reader = StreamAsyncReader::new();
    let mut events = events.into_iter();
    let mut all = Vec::new();
    let mut steps = Vec::new();
    loop {
        let mut buf = Vec::new();
        let mut step = reader.poll_read(None, &mut buf, room);
        while step == ReadStep::PollStream {
            let polled = events.next().unwrap_or(StreamPoll::Ended);
            step = reader.poll_read(Some(polled), &mut buf, room);
        }
        assert!(buf.len() <= room);
        if step != ReadStep::Ready {
            assert!(buf.is_empty());
            steps.push(step);
        } else if buf.is_empty() {
            return (all, steps);
        }
        all.extend(buf);
    }
}

#[test]
fn reads_joined_are_the_items_joined() {
    for room in 1..12 {
        let events = vec![
            StreamPoll::Item(b"hello".to_vec()),
            StreamPoll::Item(vec![]),
            StreamPoll::Pending,
            StreamPoll::Item(b" brave".to_vec()),
            StreamPoll::Failed,
            StreamPoll::Item(vec![]),
            StreamPoll::Item(b" world".to_vec()),
            StreamPoll::Item(vec![]),
        ];
        let (all, steps) = read_all(events, room);
        assert_eq!(all, b"hello brave world");
        assert_eq!(steps, vec![ReadStep::Pending, ReadStep::Failed]);
    }
    assert_eq!(read_all(vec![], 4), (vec![], vec![]));
}

#[test]
fn slices_before_an_early_end_are_sent() {
    let chunks = chunks(&[b"one", b"three", b"seven", b"nine"]);
    let missing = vec![chunks[0].0, chunks[2].0, chunks[3].0];
    let manifest = negotiate_chunk_manifest(&chunks, &missing).unwrap().manifest;
    let mut sender = NegotiatedSender::new(manifest);
    assert!(matches!(sender.step(), SendStep::NeedData));
    sender.feed(b"onethreesev".to_vec());
    sender.end();
    assert!(matches!(sender.step(), SendStep::Chunk(data) if data == b"one"));
    assert!(matches!(sender.step(), SendStep::EndedEarly { expected: 5, got: 3 }));
}

#[test]
fn an_entry_in_which_the_stream_fails_is_given_up() {
    let chunks = chunks(&[b"one", b"two", b"three"]);
    let missing = vec![chunks[0].0, chunks[2].0];
    let manifest = negotiate_chunk_manifest(&chunks, &missing).unwrap().manifest;
    let mut sender = NegotiatedSender::new(manifest);
    assert!(matches!(sender.step(), SendStep::NeedData));
    sender.feed(b"on".to_vec());
    assert!(matches!(sender.step(), SendStep::NeedData));
    sender.fail();
    sender.feed(b"twothree".to_vec());
    assert!(matches!(sender.step(), SendStep::Chunk(data) if data == b"three"));
    assert!(matches!(sender.step(), SendStep::Finished));
}
