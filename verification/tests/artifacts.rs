use lean_engine::artifacts::{
    build_key_base, endpoint_style, file_key, mirrors_to_store, upload_name, ArtifactStoreMode,
    CheckpointThrottle, LiveMirror, MirrorAction, RunArtifactSink, RunKind, S3Settings,
    UploadOutcome, LIVE_QUEUE_CAPACITY,
};
use lean_engine::time::Duration;

const SECOND: u128 = 1_000_000_000;

fn settings(bucket: &str) -> S3Settings {
    S3Settings {
        bucket: bucket.to_string(),
        prefix: "runs".to_string(),
        region: None,
        endpoint: None,
        access_key: None,
        secret_key: None,
    }
}

#[test]
fn parse_modes() {
    assert_eq!(
        ArtifactStoreMode::parse("local"),
        Some(ArtifactStoreMode::Local)
    );
    assert_eq!(ArtifactStoreMode::parse("S3"), Some(ArtifactStoreMode::S3));
    assert_eq!(
        ArtifactStoreMode::parse(" Mirror "),
        Some(ArtifactStoreMode::Mirror)
    );
    assert_eq!(ArtifactStoreMode::parse("nope"), None);
}

#[test]
fn key_layout_backtest_and_live() {
    assert_eq!(
        build_key_base("runs", "my_project", RunKind::Backtest, "2024_run"),
        "runs/my_project/backtests/2024_run"
    );
    assert_eq!(
        build_key_base("runs/", "proj", RunKind::Live, "deploy1"),
        "runs/proj/live/deploy1"
    );
    // Empty prefix is tolerated.
    assert_eq!(
        build_key_base("", "proj", RunKind::Backtest, "r"),
        "proj/backtests/r"
    );
}

#[test]
fn key_layout_without_project() {
    assert_eq!(
        build_key_base("//runs//", "", RunKind::Backtest, "r"),
        "runs/backtests/r"
    );
    assert_eq!(build_key_base("/", "", RunKind::Live, "d"), "live/d");
    assert_eq!(file_key("runs/live/d", "code/main.py"), "runs/live/d/code/main.py");
}

#[test]
fn only_s3_and_mirror_use_the_store() {
    assert!(!ArtifactStoreMode::Local.uses_s3());
    assert!(ArtifactStoreMode::S3.uses_s3());
    assert!(ArtifactStoreMode::Mirror.uses_s3());
    let named = settings("bucket");
    let unnamed = settings("");
    assert!(mirrors_to_store(ArtifactStoreMode::S3, Some(&named), true));
    assert!(mirrors_to_store(ArtifactStoreMode::Mirror, Some(&named), true));
    assert!(!mirrors_to_store(ArtifactStoreMode::Local, Some(&named), true));
    assert!(!mirrors_to_store(ArtifactStoreMode::S3, Some(&unnamed), true));
    assert!(!mirrors_to_store(ArtifactStoreMode::S3, Some(&named), false));
    assert!(!mirrors_to_store(ArtifactStoreMode::Mirror, None, true));
}

#[test]
fn custom_endpoints_are_addressed_by_path() {
    let mut s3 = settings("bucket");
    let aws = endpoint_style(&s3);
    assert!(!aws.path_style && !aws.allow_http);
    s3.endpoint = Some("http://localhost:9000".to_string());
    let plain = endpoint_style(&s3);
    assert!(plain.path_style && plain.allow_http);
    s3.endpoint = Some("https://minio.example".to_string());
    let secure = endpoint_style(&s3);
    assert!(secure.path_style && !secure.allow_http);
}

#[test]
fn temporary_files_are_not_uploaded() {
    assert_eq!(upload_name("progress.json"), Some("progress.json".to_string()));
    assert_eq!(upload_name("code\\main.py"), Some("code/main.py".to_string()));
    assert_eq!(upload_name("progress.json.tmp"), None);
}

#[test]
fn local_mode_never_touches_s3() {
    let mut sink = RunArtifactSink::local("backtests/run1");
    assert_eq!(*sink.working_dir(), "backtests/run1");
    assert!(matches!(sink.mirror("progress.json", 0), MirrorAction::Nothing));
    assert!(sink.flush_all(&vec!["progress.json".to_string()]).is_empty());
    assert!(sink.s3_key_base().is_none());
    assert!(sink.writes_local_run_dir());
}

#[test]
fn mirror_mode_mirrors_on_flush() {
    let sink = RunArtifactSink::with_store(
        ArtifactStoreMode::Mirror,
        RunKind::Backtest,
        "run-dir",
        "proj",
        "run1",
        "runs",
        None,
        0,
    );
    assert!(sink.writes_local_run_dir());
    let files = vec![
        "code/main.py".to_string(),
        "progress.json.tmp".to_string(),
        "progress.json".to_string(),
    ];
    let uploads = sink.flush_all(&files);
    assert_eq!(
        uploads,
        vec![
            (0, "runs/proj/backtests/run1/code/main.py".to_string()),
            (2, "runs/proj/backtests/run1/progress.json".to_string()),
        ]
    );
}

#[test]
fn checkpoint_upload_is_throttled_but_flush_forces() {
    let mut sink = RunArtifactSink::with_store(
        ArtifactStoreMode::Mirror,
        RunKind::Backtest,
        "run-dir",
        "proj",
        "run1",
        "runs",
        None,
        0,
    );
    match sink.mirror("progress.json", 5 * SECOND) {
        MirrorAction::UploadNow(key) => {
            assert_eq!(key, "runs/proj/backtests/run1/progress.json")
        }
        _ => panic!("the first change is uploaded"),
    }
    assert!(matches!(
        sink.mirror("progress.json", 64 * SECOND),
        MirrorAction::Nothing
    ));
    // Another file has its own interval.
    assert!(matches!(
        sink.mirror("trades.jsonl", 64 * SECOND),
        MirrorAction::UploadNow(_)
    ));
    assert_eq!(sink.flush_all(&vec!["progress.json".to_string()]).len(), 1);
    assert!(matches!(
        sink.mirror("progress.json", 65 * SECOND),
        MirrorAction::UploadNow(_)
    ));
}

#[test]
fn s3_only_mode_uses_temp_buffer_and_deletes_it() {
    let sink = RunArtifactSink::new(
        ArtifactStoreMode::S3,
        RunKind::Backtest,
        "run-dir",
        "proj",
        "run1",
        Some(&settings("bucket")),
        true,
        Some("temp-dir"),
        0,
    );
    assert_eq!(sink.mode(), ArtifactStoreMode::S3);
    assert_eq!(sink.s3_key_base(), Some("runs/proj/backtests/run1"));
    assert!(!sink.writes_local_run_dir());
    assert!(sink.removes_working_dir());
    assert_eq!(*sink.working_dir(), "temp-dir");
    // Without a temporary directory the run directory serves, and stays.
    let fallback = RunArtifactSink::with_store(
        ArtifactStoreMode::S3,
        RunKind::Backtest,
        "run-dir",
        "proj",
        "run1",
        "runs",
        None,
        0,
    );
    assert!(!fallback.removes_working_dir());
    assert_eq!(*fallback.working_dir(), "run-dir");
}

#[test]
fn without_a_bucket_files_stay_local() {
    let sink = RunArtifactSink::new(
        ArtifactStoreMode::Mirror,
        RunKind::Live,
        "run-dir",
        "proj",
        "run1",
        Some(&settings("")),
        true,
        Some("temp-dir"),
        0,
    );
    assert_eq!(sink.mode(), ArtifactStoreMode::Local);
    assert!(sink.s3_key_base().is_none());
    assert!(sink.live.is_none());
    assert_eq!(*sink.working_dir(), "run-dir");
}

#[test]
fn live_mode_mirrors_each_snapshot() {
    let mut sink = RunArtifactSink::with_store(
        ArtifactStoreMode::Mirror,
        RunKind::Live,
        "run-dir",
        "proj",
        "deploy1",
        "runs",
        None,
        0,
    );
    match sink.mirror("portfolio.json", 0) {
        MirrorAction::UploadInBackground(key) => {
            assert_eq!(key, "runs/proj/live/deploy1/portfolio.json")
        }
        _ => panic!("a live change is uploaded in the background"),
    }
    assert!(sink.waits_for_uploads(Duration::from_secs(60)));
    assert!(!sink.waits_for_uploads(Duration::from_secs(61)));
    let report = sink
        .finish_upload("portfolio.json", UploadOutcome::Succeeded, SECOND)
        .unwrap();
    assert!(!report.requeue);
    assert!(!sink.waits_for_uploads(Duration::from_secs(0)));
    // An upload that was not running leaves no report.
    assert!(sink
        .finish_upload("portfolio.json", UploadOutcome::Succeeded, SECOND)
        .is_none());
}

#[test]
fn live_same_file_coalesces_and_converges_to_latest() {
    let mut mirror = LiveMirror::new(0);
    assert!(mirror.begin("portfolio.json"));
    for _ in 0..100 {
        assert!(!mirror.begin("portfolio.json"));
    }
    assert_eq!(mirror.stats.coalesced, 100);
    // However many changes came meanwhile, one more upload follows.
    assert!(mirror.finish("portfolio.json", UploadOutcome::Succeeded, 1).requeue);
    assert!(!mirror.is_idle());
    assert!(!mirror.finish("portfolio.json", UploadOutcome::Succeeded, 2).requeue);
    assert!(mirror.is_idle());
}

#[test]
fn the_end_of_an_upload_that_never_began_starts_none() {
    let mut mirror = LiveMirror::new(0);
    let report = mirror.finish("portfolio.json", UploadOutcome::Succeeded, 1);
    assert!(!report.requeue);
    assert!(mirror.is_idle());
    assert_eq!(mirror.stats.succeeded, 1);
    assert!(!mirror.files.contains_key("portfolio.json"));
    assert!(mirror.begin("portfolio.json"));
    // The place of another file is given up.
    assert!(!mirror.finish("trades.jsonl", UploadOutcome::Failed, 2).requeue);
    assert_eq!(mirror.inflight_files, 0);
    assert!(!mirror.begin("portfolio.json"));
}

#[test]
fn live_error_burst_then_heal_converges() {
    let mut mirror = LiveMirror::new(0);
    for attempt in 0..3 {
        assert!(mirror.begin("portfolio.json"));
        let outcome = if attempt == 1 {
            UploadOutcome::TimedOut
        } else {
            UploadOutcome::Failed
        };
        let report = mirror.finish("portfolio.json", outcome, 1);
        assert!(report.recovery.is_none());
    }
    assert_eq!(mirror.failures_since_success, 3);
    assert!(mirror.begin("portfolio.json"));
    let healed = mirror.finish("portfolio.json", UploadOutcome::Succeeded, 2);
    assert_eq!(
        healed.recovery,
        Some("live artifact S3 mirror recovered after 3 failed upload(s)".to_string())
    );
    assert_eq!(mirror.failures_since_success, 0);
}

#[test]
fn live_distinct_file_cap_drops_without_blocking() {
    let mut mirror = LiveMirror::new(0);
    for i in 0..LIVE_QUEUE_CAPACITY {
        assert!(mirror.begin(&format!("file-{}.json", i)));
    }
    assert!(!mirror.begin("one-more.json"));
    assert_eq!(mirror.stats.dropped, 1);
    assert_eq!(mirror.inflight_files, LIVE_QUEUE_CAPACITY);
    assert!(!mirror.finish("file-0.json", UploadOutcome::Succeeded, 1).requeue);
    assert!(mirror.begin("one-more.json"));
}

#[test]
fn summaries_come_at_most_once_per_interval() {
    let mut mirror = LiveMirror::new(0);
    assert!(mirror.begin("a"));
    assert!(mirror.finish("a", UploadOutcome::Failed, SECOND).summary.is_none());
    assert!(mirror.begin("a"));
    let report = mirror.finish("a", UploadOutcome::TimedOut, 300 * SECOND);
    assert_eq!(
        report.summary,
        Some(
            "live artifact S3 mirror: 0 succeeded, 1 failed, 1 timed out, 0 coalesced, \
             0 dropped in the last 300s (endpoint still degraded)"
                .to_string()
        )
    );
    assert!(!mirror.stats.any_activity());
    assert!(!mirror.stats.any_trouble());
    // Nothing to count is no summary, and the interval starts anew.
    assert!(mirror.maybe_take_summary(700 * SECOND).is_none());
    assert_eq!(mirror.last_summary, 700 * SECOND);
}

#[test]
fn a_checkpoint_is_due_after_its_interval() {
    let mut throttle = CheckpointThrottle::new();
    assert!(throttle.due("a", 10));
    assert!(!throttle.due("a", 10 + 60 * SECOND - 1));
    assert!(throttle.due("a", 10 + 60 * SECOND));
}
