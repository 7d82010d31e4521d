use any_video::commands::{
    announced_file_name, finish_status, handle_stdout, note_stderr, progress_payload, queued_state,
    DownloadRun, RunEvent,
};
use any_video::jobs::{now_secs, secs_or_zero, DownloadJob, JobRegistry, JobState, JobStatus};
use any_video::policy::{policy_after_fetch, policy_from_cache, PolicyStep, UpdatePolicy};
use any_video::ytdlp::ProgressLine;

fn job(id: &str) -> DownloadJob {
    DownloadJob {
        id: id.to_string(),
        url: format!("https://v/{id}"),
        title: "t".to_string(),
        format_id: "best".to_string(),
        output_dir: "/tmp/out".to_string(),
        thumbnail: None,
    }
}

fn state(id: &str, status: JobStatus) -> JobState {
    JobState { job: job(id), status, started_at: 10, ended_at: None }
}

fn ids(v: &[JobState]) -> Vec<String> {
    v.iter().map(|s| s.job.id.clone()).collect()
}

#[test]
fn upsert_replaces_in_place_and_appends_new_jobs() {
    let mut r = JobRegistry::new();
    assert!(r.list().is_empty());
    r.upsert(state("a", JobStatus::Queued));
    r.upsert(state("b", JobStatus::Queued));
    r.upsert(state("a", JobStatus::Done { path: "/tmp/out/a.mp4".to_string() }));
    let l = r.list();
    assert_eq!(ids(&l), vec!["a", "b"]);
    match &l[0].status {
        JobStatus::Done { path } => assert_eq!(path, "/tmp/out/a.mp4"),
        _ => panic!("expected done"),
    }
    assert!(matches!(l[1].status, JobStatus::Queued));
    assert_eq!(l[1].started_at, 10);
}

#[test]
fn last_write_wins() {
    let mut r = JobRegistry::new();
    r.upsert(state("a", JobStatus::Queued));
    r.upsert(state("a", JobStatus::Running { downloaded: 5, total: 9, speed_bits: 0, eta_bits: 0 }));
    r.upsert(state("a", JobStatus::Cancelled));
    let l = r.list();
    assert_eq!(l.len(), 1);
    assert!(matches!(l[0].status, JobStatus::Cancelled));
    r.clear_finished();
    r.clear_finished();
    assert!(r.list().is_empty());
}

#[test]
fn clear_finished_keeps_queued_and_running() {
    let mut r = JobRegistry::new();
    r.upsert(state("q", JobStatus::Queued));
    r.upsert(state("d", JobStatus::Done { path: "p".to_string() }));
    r.upsert(state("run", JobStatus::Running { downloaded: 1, total: 2, speed_bits: 0, eta_bits: 0 }));
    r.upsert(state("e", JobStatus::Error { message: "m".to_string() }));
    r.upsert(state("c", JobStatus::Cancelled));
    r.clear_finished();
    assert_eq!(ids(&r.list()), vec!["q", "run"]);
}

#[test]
fn cancel_signals_once() {
    let mut r = JobRegistry::new();
    let (tx, mut rx) = tokio::sync::oneshot::channel::<()>();
    r.register_cancel("a", tx);
    assert!(!r.cancel("b"));
    assert!(r.cancel("a"));
    assert_eq!(rx.try_recv(), Ok(()));
    assert!(!r.cancel("a"));
}

#[test]
fn drop_cancel_forgets_without_signal() {
    let mut r = JobRegistry::new();
    let (tx, mut rx) = tokio::sync::oneshot::channel::<()>();
    r.register_cancel("a", tx);
    r.drop_cancel("a");
    assert!(!r.cancel("a"));
    assert!(rx.try_recv().is_err());
}

#[test]
fn register_cancel_twice_keeps_latest_channel() {
    let mut r = JobRegistry::new();
    let (tx1, mut rx1) = tokio::sync::oneshot::channel::<()>();
    let (tx2, mut rx2) = tokio::sync::oneshot::channel::<()>();
    r.register_cancel("a", tx1);
    r.register_cancel("a", tx2);
    assert!(r.cancel("a"));
    assert_eq!(rx2.try_recv(), Ok(()));
    assert!(rx1.try_recv().is_err());
}

#[test]
fn now_is_after_2020() {
    assert!(now_secs() > 1_577_836_800);
}

#[test]
fn progress_line_updates_state_and_file_name() {
    let line = r#"download:{"id":"x","downloaded":100,"total":400,"speed":2.5,"eta":3,"status":"downloading","filename":"/o/v.mp4"}"#;
    assert_eq!(
        progress_payload(line).unwrap(),
        r#"{"id":"x","downloaded":100,"total":400,"speed":2.5,"eta":3,"status":"downloading","filename":"/o/v.mp4"}"#
    );
    let mut last = None;
    let p = ProgressLine {
        downloaded: Some(100),
        total: None,
        speed_bits: Some(2.5f64.to_bits()),
        eta_bits: None,
        filename: Some("/o/v.mp4".to_string()),
    };
    match handle_stdout(line, Some(p), &mut last) {
        Some(JobStatus::Running { downloaded, total, speed_bits, eta_bits }) => {
            assert_eq!(downloaded, 100);
            assert_eq!(total, 0);
            assert_eq!(f64::from_bits(speed_bits), 2.5);
            assert_eq!(eta_bits, 0);
        }
        _ => panic!("expected running"),
    }
    assert_eq!(last.as_deref(), Some("/o/v.mp4"));
}

#[test]
fn placeholder_names_do_not_replace_a_known_file() {
    let mut last = Some("/o/known.mp4".to_string());
    for name in ["NA", ""] {
        let p = ProgressLine { downloaded: None, total: None, speed_bits: None, eta_bits: None, filename: Some(name.to_string()) };
        assert!(handle_stdout("download:{}", Some(p), &mut last).is_some());
        assert_eq!(last.as_deref(), Some("/o/known.mp4"));
    }
}

#[test]
fn merger_and_destination_lines_name_the_file() {
    let mut last = None;
    assert!(handle_stdout("[download] Destination: /o/a.f137.mp4", None, &mut last).is_none());
    assert_eq!(last.as_deref(), Some("/o/a.f137.mp4"));
    assert!(handle_stdout("[Merger] Merging formats into \"/o/a \"b\".mp4\"", None, &mut last).is_none());
    assert_eq!(last.as_deref(), Some("/o/a \"b\".mp4"));
    assert!(handle_stdout("[Merger] Merging formats into no quote", None, &mut last).is_none());
    assert_eq!(last.as_deref(), Some("/o/a \"b\".mp4"));
    assert!(handle_stdout("download:not json", None, &mut last).is_none());
    assert!(handle_stdout("[youtube] abc: Downloading webpage", None, &mut last).is_none());
    assert_eq!(last.as_deref(), Some("/o/a \"b\".mp4"));
    assert_eq!(announced_file_name("[download] Destination: x"), Some("x".to_string()));
    assert_eq!(announced_file_name("other"), None);
}

#[test]
fn stderr_keeps_last_non_blank_line() {
    let mut last = None;
    note_stderr("ERROR: unsupported URL".to_string(), &mut last);
    note_stderr("   \t".to_string(), &mut last);
    assert_eq!(last.as_deref(), Some("ERROR: unsupported URL"));
}

#[test]
fn finish_reports_done_or_error() {
    match finish_status(true, "exit status: 0", Some("/o/v.mp4".to_string()), None, "/o") {
        JobStatus::Done { path } => assert_eq!(path, "/o/v.mp4"),
        _ => panic!(),
    }
    match finish_status(true, "exit status: 0", None, Some("warn".to_string()), "/o") {
        JobStatus::Done { path } => assert_eq!(path, "/o"),
        _ => panic!(),
    }
    match finish_status(false, "exit status: 1", None, Some("ERROR: x".to_string()), "/o") {
        JobStatus::Error { message } => assert_eq!(message, "ERROR: x"),
        _ => panic!(),
    }
    match finish_status(false, "exit status: 2", Some("f".to_string()), None, "/o") {
        JobStatus::Error { message } => assert_eq!(message, "yt-dlp exited with status exit status: 2"),
        _ => panic!(),
    }
}

#[test]
fn policy_default_is_permissive() {
    let p = UpdatePolicy::default();
    assert_eq!(p.min_required_version, "0.0.0");
    assert_eq!(p.message, "Please update to continue.");
    let q = policy_from_cache(None);
    assert_eq!(q.min_required_version, "0.0.0");
    let cached = UpdatePolicy { min_required_version: "2.0.0".to_string(), message: "m".to_string() };
    assert_eq!(policy_from_cache(Some(cached)).min_required_version, "2.0.0");
}

#[test]
fn policy_falls_back_on_every_failure() {
    assert!(matches!(policy_after_fetch(None), PolicyStep::ReadCache));
    assert!(matches!(policy_after_fetch(Some(Err("bad body".to_string()))), PolicyStep::ReadCache));
    let p = UpdatePolicy { min_required_version: "1.2.0".to_string(), message: "m".to_string() };
    match policy_after_fetch(Some(Ok(p))) {
        PolicyStep::Done(p) => assert_eq!(p.min_required_version, "1.2.0"),
        _ => panic!(),
    }
}

#[test]
fn unicode_blank_lines_keep_the_last_error() {
    let mut last = Some("ERROR: first".to_string());
    note_stderr("\u{3000}\u{a0}\u{2028} \r".to_string(), &mut last);
    assert_eq!(last.as_deref(), Some("ERROR: first"));
    note_stderr(String::new(), &mut last);
    assert_eq!(last.as_deref(), Some("ERROR: first"));
    note_stderr("\u{3000}x\u{3000}".to_string(), &mut last);
    assert_eq!(last.as_deref(), Some("\u{3000}x\u{3000}"));
}

#[test]
fn seconds_or_zero() {
    assert_eq!(secs_or_zero(Some(1_700_000_000)), 1_700_000_000);
    assert_eq!(secs_or_zero(None), 0);
}

#[test]
fn accepted_jobs_are_queued() {
    let q = queued_state(job("a"), 42);
    assert!(matches!(q.status, JobStatus::Queued));
    assert_eq!(q.started_at, 42);
    assert_eq!(q.ended_at, None);
    assert_eq!(q.job.id, "a");
}

fn progress(done: u64) -> ProgressLine {
    ProgressLine {
        downloaded: Some(done),
        total: Some(100),
        speed_bits: None,
        eta_bits: None,
        filename: Some("/o/v.mp4".to_string()),
    }
}

#[test]
fn a_run_reports_progress_then_one_final_state() {
    let mut run = DownloadRun::start(job("a"), 10);
    let s = run
        .step(RunEvent::Stdout { line: "download:{}".to_string(), progress: Some(progress(5)) }, 11)
        .unwrap();
    assert!(matches!(s.status, JobStatus::Running { downloaded: 5, total: 100, .. }));
    assert_eq!(s.ended_at, None);
    assert_eq!(s.started_at, 10);
    assert!(run.step(RunEvent::Stdout { line: "[info] x".to_string(), progress: None }, 12).is_none());
    assert!(run.step(RunEvent::Stderr { line: "WARNING: slow".to_string() }, 12).is_none());
    let done = run.step(RunEvent::Exited { success: true, status_text: "exit status: 0".to_string() }, 20).unwrap();
    match done.status {
        JobStatus::Done { path } => assert_eq!(path, "/o/v.mp4"),
        _ => panic!("expected done"),
    }
    assert_eq!(done.ended_at, Some(20));
    assert!(run.finished);
    assert!(run.step(RunEvent::Cancelled, 21).is_none());
    assert!(run.step(RunEvent::Failed { message: "late".to_string() }, 22).is_none());
}

#[test]
fn a_failed_exit_reports_the_last_error_line() {
    let mut run = DownloadRun::start(job("b"), 1);
    run.step(RunEvent::Stderr { line: "ERROR: 403".to_string() }, 2);
    run.step(RunEvent::Stderr { line: "  ".to_string() }, 3);
    let s = run.step(RunEvent::Exited { success: false, status_text: "exit status: 1".to_string() }, 4).unwrap();
    match s.status {
        JobStatus::Error { message } => assert_eq!(message, "ERROR: 403"),
        _ => panic!("expected error"),
    }
}

#[test]
fn cancelling_and_failing_end_a_run() {
    let mut run = DownloadRun::start(job("c"), 1);
    let s = run.step(RunEvent::Cancelled, 5).unwrap();
    assert!(matches!(s.status, JobStatus::Cancelled));
    assert_eq!(s.ended_at, Some(5));
    assert!(run.step(RunEvent::Exited { success: true, status_text: String::new() }, 6).is_none());
    let mut other = DownloadRun::start(job("d"), 1);
    let f = other.step(RunEvent::Failed { message: "spawn failed".to_string() }, 7).unwrap();
    match f.status {
        JobStatus::Error { message } => assert_eq!(message, "spawn failed"),
        _ => panic!("expected error"),
    }
}
