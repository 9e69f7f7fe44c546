use sparkling_core::control_file::{ControlFile, LoadFault};
use sparkling_core::engine::{initial_snapshot, set_state, submit_http, ControlMsg};
use sparkling_core::http_engine::driver::{
    batch_outcomes, check_fatal, unchanged, validator_matches, DownloadEnd, Driver, DriverStep, Phase,
};
use sparkling_core::http_engine::download::{needs_new_part, renew_plan, Download, RunPhase, RunStep};
use sparkling_core::http_engine::retry::RetryCount;
use sparkling_core::http_engine::run::{
    content_md5, control_sequential, finalize, finalize_with, fresh_shared, on_probe, part_path_for,
    plan, publish_error, sanitize_filename, settle, settle_sequential, supervise, target_name,
    load_usable, usable_table, Plan, ProbeNext, PublishStep, ReportStep, Reporter, Settlement,
};
use sparkling_core::http_engine::worker::{
    check_fetch, range_header, stream_gate, stream_read, FetchReply, ReadEvent, SegmentWorker,
    SequentialWorker, StreamOutcome, WorkerExit, WorkerStep,
};
use sparkling_core::http_engine::{RetryPolicy, Shared};
use sparkling_core::probe::{probe, wants_plain_request, ProbeReply, ProbeResult};
use sparkling_core::segment::{split, Segment};
use sparkling_core::task::{TaskKind, TaskSpec, TaskState};
use sparkling_core::SparklingError;

const URL: &str = "http://127.0.0.1/file.bin";
const CHUNK: usize = 64 * 1024;

fn spec(segments: u32) -> TaskSpec {
    TaskSpec {
        url: URL.into(),
        save_dir: "dl".into(),
        filename: None,
        segments,
        max_speed: None,
        kind: TaskKind::Http,
        video: None,
    }
}

fn content(size: usize, v2: bool) -> Vec<u8> {
    (0..size)
        .map(|i| if v2 { ((i * 7 + 3) % 241) as u8 } else { (i % 251) as u8 })
        .collect()
}

/// A server in memory.
struct Server {
    data: Vec<u8>,
    etag: &'static str,
    range: bool,
    always_416: bool,
    fail_first: usize,
    fail: bool,
    /// Bodies are cut off after so many bytes, this many times.
    drop_after: Option<usize>,
    drops_left: usize,
    md5: Option<String>,
    requests: Vec<Option<String>>,
}

struct Response {
    status: u16,
    body: Vec<u8>,
    broken: bool,
}

impl Server {
    fn new(size: usize) -> Self {
        let data = content(size, false);
        Server {
            md5: Some(content_md5(&data)),
            data,
            etag: "\"v1\"",
            range: true,
            always_416: false,
            fail_first: 0,
            fail: false,
            drop_after: None,
            drops_left: usize::MAX,
            requests: vec![],
        }
    }

    fn set_v2(&mut self) {
        self.data = content(self.data.len(), true);
        self.md5 = Some(content_md5(&self.data));
        self.etag = "\"v2\"";
    }

    fn get(&mut self, range: Option<(u64, Option<u64>)>) -> Response {
        let header = range.and_then(|(s, e)| range_header(s, e));
        self.requests.push(header.clone());
        if self.fail || self.fail_first > 0 {
            self.fail_first = self.fail_first.saturating_sub(1);
            return Response { status: 500, body: vec![], broken: false };
        }
        if header.is_some() && self.always_416 {
            return Response { status: 416, body: vec![], broken: false };
        }
        let (status, mut body) = match range {
            Some((s, e)) if self.range && header.is_some() => {
                let last = e.unwrap_or(self.data.len() as u64 - 1) as usize;
                (206, self.data[s as usize..=last.min(self.data.len() - 1)].to_vec())
            }
            _ => (200, self.data.clone()),
        };
        let mut broken = false;
        if let Some(n) = self.drop_after {
            if body.len() > n && self.drops_left > 0 {
                self.drops_left -= 1;
                body.truncate(n);
                broken = true;
            }
        }
        Response { status, body, broken }
    }

    fn probe(&mut self) -> Result<ProbeResult, SparklingError> {
        let mut r = if self.data.is_empty() {
            self.get(None)
        } else {
            self.get(Some((0, Some(0))))
        };
        if wants_plain_request(r.status) {
            r = self.get(None);
        }
        probe(
            URL,
            ProbeReply {
                status: r.status,
                content_range: (r.status == 206).then(|| format!("bytes 0-0/{}", self.data.len())),
                content_length: Some(self.data.len().to_string()),
                content_disposition: None,
                etag: Some(self.etag.to_string()),
                last_modified: None,
                content_md5: self.md5.clone(),
            },
        )
    }
}

/// A worker with the response that it reads.
struct Running {
    worker: SegmentWorker,
    begun: bool,
    open: Option<(Response, usize)>,
}

/// The files of a download.
#[derive(Default)]
struct Disk {
    part: Vec<u8>,
    saved: Option<ControlFile>,
}

impl Running {
    /// Lets the worker do one thing; gives its exit when it stops.
    fn turn(
        &mut self,
        server: &mut Server,
        shared: &mut Shared,
        disk: &mut Disk,
        policy: &RetryPolicy,
    ) -> Option<Result<WorkerExit, SparklingError>> {
        let (step, save) = if let Some((resp, at)) = &mut self.open {
            let seg = &mut self.worker.seg;
            let outcome = match stream_gate(shared, seg) {
                Some(o) => Some(o),
                None if *at < resp.body.len() => {
                    let n = CHUNK.min(resp.body.len() - *at);
                    let off = seg.next_offset() as usize;
                    disk.part[off..off + n].copy_from_slice(&resp.body[*at..*at + n]);
                    *at += n;
                    stream_read(shared, seg, ReadEvent::Written(n as u64))
                }
                None if resp.broken => stream_read(shared, seg, ReadEvent::Broken("reset".into())),
                None => stream_read(shared, seg, ReadEvent::Ended),
            };
            match outcome {
                None => return None,
                Some(o) => {
                    self.open = None;
                    self.worker.on_stream(shared, policy, o)
                }
            }
        } else {
            self.begun = true;
            self.worker.begin(shared)
        };
        self.follow(step, save, server, shared, disk, policy)
    }

    fn follow(
        &mut self,
        step: WorkerStep,
        save: Option<ControlFile>,
        server: &mut Server,
        shared: &mut Shared,
        disk: &mut Disk,
        policy: &RetryPolicy,
    ) -> Option<Result<WorkerExit, SparklingError>> {
        if save.is_some() {
            disk.saved = save;
        }
        match step {
            WorkerStep::Exit(r) => Some(r),
            WorkerStep::Wait(_) => None,
            WorkerStep::Stream => None,
            WorkerStep::Fetch { start, end } => {
                let resp = server.get(Some((start, end)));
                let reply = match check_fetch(resp.status, URL) {
                    Ok(()) => FetchReply::Opened(resp.status),
                    Err(e) => FetchReply::Refused(e),
                };
                let (next, save) = self.worker.on_fetch(shared, policy, reply);
                if matches!(next, WorkerStep::Stream) {
                    self.open = Some((resp, 0));
                }
                self.follow(next, save, server, shared, disk, policy)
            }
        }
    }
}

fn start_shared(server: &mut Server, spec: &TaskSpec, ctl: Option<ControlFile>) -> (Plan, Disk) {
    let mut count = RetryCount::new();
    let policy = RetryPolicy::fast();
    let target = loop {
        match on_probe(spec, &mut count, &policy, server.probe()) {
            ProbeNext::Found(t) => break t,
            ProbeNext::Retry(_) => {}
            ProbeNext::Fail(e) => panic!("{}", e.user_message()),
        }
    };
    let total = target.probe.total as usize;
    let p = plan(spec, target.probe, target.filename, ctl.map(Ok));
    (p, Disk { part: vec![0; total], saved: None })
}

/// Runs the driver until it ends or is paused; `pause_at` pauses once so much is there.
fn drive(
    server: &mut Server,
    shared: &mut Shared,
    disk: &mut Disk,
    driver: &mut Driver,
    mut step: DriverStep,
    mut pause_at: Option<u64>,
) -> DriverStep {
    let policy = RetryPolicy::fast();
    loop {
        match step {
            DriverStep::Spawn(batch) => {
                let mut live: Vec<Option<Running>> = batch
                    .into_iter()
                    .map(|s| Some(Running { worker: SegmentWorker::new(s), begun: false, open: None }))
                    .collect();
                let mut outcomes = vec![];
                while live.iter().any(|w| w.is_some()) {
                    for slot in live.iter_mut() {
                        if let Some(w) = slot {
                            if let Some(r) = w.turn(server, shared, disk, &policy) {
                                outcomes.push(r);
                                *slot = None;
                            }
                        }
                    }
                    if pause_at.is_some_and(|n| shared.downloaded >= n) {
                        pause_at = None;
                        let s = driver.on_control(shared, Some(ControlMsg::Pause));
                        assert!(matches!(s, DriverStep::AwaitBatch));
                    }
                }
                step = driver.on_batch(shared, &outcomes);
            }
            other => return other,
        }
    }
}

fn segmented(p: Plan) -> (Shared, bool) {
    match p {
        Plan::Segmented { shared, discard } => (shared, discard),
        _ => panic!("expected a segmented download"),
    }
}

fn run_to_end(server: &mut Server, segments: u32) -> (Shared, Disk, Result<(), DownloadEnd>) {
    let spec = spec(segments);
    let (p, mut disk) = start_shared(server, &spec, None);
    let (mut shared, _) = segmented(p);
    let mut driver = Driver::new(segments);
    let step = driver.start(&mut shared);
    match drive(server, &mut shared, &mut disk, &mut driver, step, None) {
        DriverStep::End(r) => (shared, disk, r),
        _ => panic!("expected an end"),
    }
}

#[test]
fn multithread_download_completes() {
    let mut server = Server::new(1024 * 1024);
    let (shared, disk, end) = run_to_end(&mut server, 8);
    assert!(end.is_ok());
    assert_eq!(shared.downloaded, 1024 * 1024);
    assert_eq!(shared.segments.len(), 8);
    assert!(finalize(&shared, Ok(disk.part.clone())).is_ok());
    assert_eq!(disk.part, server.data);
}

#[test]
fn idle_workers_take_over() {
    let mut server = Server::new(8 * 1024 * 1024);
    let spec = spec(2);
    let (p, mut disk) = start_shared(&mut server, &spec, None);
    let (mut shared, _) = segmented(p);
    // The first segment is nearly done, so its worker soon takes over half of the second.
    let most = shared.segments[0].len() - 100_000;
    disk.part[..most as usize].copy_from_slice(&server.data[..most as usize]);
    shared.add_progress(0, most);
    let mut driver = Driver::new(2);
    let step = driver.start(&mut shared);
    let end = drive(&mut server, &mut shared, &mut disk, &mut driver, step, None);
    assert!(matches!(end, DriverStep::End(Ok(()))));
    assert!(shared.segments.len() > 2);
    assert_eq!(shared.downloaded, 8 * 1024 * 1024);
    assert_eq!(disk.part, server.data);
    assert!(disk.saved.is_some());
}

#[test]
fn connection_drop_resumes_from_offset() {
    let mut server = Server::new(2 * 1024 * 1024);
    server.drop_after = Some(512 * 1024);
    let (shared, disk, end) = run_to_end(&mut server, 2);
    assert!(end.is_ok());
    assert_eq!(shared.downloaded, 2 * 1024 * 1024);
    assert_eq!(disk.part, server.data);
    let resumed = format!("bytes={}-{}", 512 * 1024, 1024 * 1024 - 1);
    assert!(server.requests.contains(&Some(resumed)));
}

#[test]
fn probe_retries_transient_5xx() {
    let mut server = Server::new(256 * 1024);
    server.fail_first = 3;
    let (_, disk, end) = run_to_end(&mut server, 8);
    assert!(end.is_ok());
    assert_eq!(disk.part, server.data);
}

#[test]
fn persistent_5xx_fails_task() {
    let mut server = Server::new(1024);
    server.fail = true;
    let policy = RetryPolicy::fast();
    let mut count = RetryCount::new();
    let e = loop {
        match on_probe(&spec(8), &mut count, &policy, server.probe()) {
            ProbeNext::Retry(_) => {}
            ProbeNext::Fail(e) => break e,
            ProbeNext::Found(_) => unreachable!(),
        }
    };
    assert_eq!(server.requests.len(), 6);
    let mut snap = initial_snapshot(None);
    supervise(&mut snap, Err(DownloadEnd::Failed(e)));
    assert_eq!(snap.state, TaskState::Failed);
    assert!(snap.error.unwrap().contains("500"));
}

#[test]
fn failure_keeps_progress() {
    let mut server = Server::new(2 * 1024 * 1024);
    server.drop_after = Some(512 * 1024);
    let spec = spec(2);
    let (p, mut disk) = start_shared(&mut server, &spec, None);
    let (mut shared, _) = segmented(p);
    let mut driver = Driver::new(2);
    let step = driver.start(&mut shared);
    let held = drive(&mut server, &mut shared, &mut disk, &mut driver, step, Some(600_000));
    assert!(matches!(held, DriverStep::Hold(_)));
    server.fail = true;
    let probed = server.probe();
    let end = driver.on_control(&mut shared, Some(ControlMsg::Resume));
    assert!(matches!(end, DriverStep::Probe));
    match driver.on_probe(&mut shared, probed) {
        DriverStep::End(end) => {
            assert!(matches!(settle(end), Settlement::Keep(SparklingError::HttpStatus { status: 500, .. })));
        }
        _ => panic!("expected an end"),
    }
    assert!(shared.downloaded >= 600_000);
}

#[test]
fn pause_resume_completes() {
    let mut server = Server::new(4 * 1024 * 1024);
    let spec = spec(8);
    let (p, mut disk) = start_shared(&mut server, &spec, None);
    let (mut shared, discard) = segmented(p);
    assert!(!discard);
    let mut driver = Driver::new(8);
    let step = driver.start(&mut shared);
    let held = drive(&mut server, &mut shared, &mut disk, &mut driver, step, Some(200_000));
    let paused = shared.downloaded;
    match held {
        DriverStep::Hold(cf) => {
            let recorded: u64 = cf.segments.iter().map(|s| s.downloaded).sum();
            assert_eq!(recorded, paused);
        }
        _ => panic!("expected a pause"),
    }
    assert!(shared.paused);
    assert_eq!(driver.phase, Phase::Paused);
    assert!(matches!(driver.on_control(&mut shared, Some(ControlMsg::Pause)), DriverStep::Wait));
    assert!(matches!(driver.on_control(&mut shared, Some(ControlMsg::Resume)), DriverStep::Probe));
    let step = driver.on_probe(&mut shared, server.probe());
    assert!(!shared.paused);
    let end = drive(&mut server, &mut shared, &mut disk, &mut driver, step, None);
    assert!(matches!(end, DriverStep::End(Ok(()))));
    assert_eq!(shared.downloaded, 4 * 1024 * 1024);
    assert_eq!(disk.part, server.data);
}

#[test]
fn crash_recovery_resumes_from_offset() {
    let mut server = Server::new(2 * 1024 * 1024);
    let spec = spec(8);
    let (p, mut disk) = start_shared(&mut server, &spec, None);
    let (mut shared, _) = segmented(p);
    let mut driver = Driver::new(8);
    let step = driver.start(&mut shared);
    drive(&mut server, &mut shared, &mut disk, &mut driver, step, Some(300_000));
    let cf = shared.build_control_file();
    let before: u64 = cf.segments.iter().map(|s| s.downloaded).sum();
    assert!(before >= 300_000);
    assert!(usable_table(&cf.segments));

    let (p, _) = start_shared(&mut server, &spec, Some(cf));
    let (mut again, discard) = segmented(p);
    assert!(!discard);
    assert_eq!(again.downloaded, before);
    let mut driver = Driver::new(8);
    let step = driver.start(&mut again);
    let end = drive(&mut server, &mut again, &mut disk, &mut driver, step, None);
    assert!(matches!(end, DriverStep::End(Ok(()))));
    assert_eq!(again.downloaded, 2 * 1024 * 1024);
    assert_eq!(disk.part, server.data);
}

#[test]
fn etag_change_restarts_from_zero() {
    let mut server = Server::new(1024 * 1024);
    let spec = spec(8);
    let (p, mut disk) = start_shared(&mut server, &spec, None);
    let (mut shared, _) = segmented(p);
    let mut driver = Driver::new(8);
    let step = driver.start(&mut shared);
    drive(&mut server, &mut shared, &mut disk, &mut driver, step, Some(150_000));
    let old = shared.build_control_file();
    server.set_v2();
    driver.on_control(&mut shared, Some(ControlMsg::Resume));
    match driver.on_probe(&mut shared, server.probe()) {
        DriverStep::End(end) => assert!(matches!(settle(end), Settlement::Restart)),
        _ => panic!("expected a restart"),
    }
    // What was recorded of the old file is not used for the new one either.
    let (p, mut disk) = start_shared(&mut server, &spec, Some(old));
    let (mut fresh, discard) = segmented(p);
    assert!(discard);
    assert_eq!(fresh.downloaded, 0);
    let mut driver = Driver::new(8);
    let step = driver.start(&mut fresh);
    let end = drive(&mut server, &mut fresh, &mut disk, &mut driver, step, None);
    assert!(matches!(end, DriverStep::End(Ok(()))));
    assert_eq!(disk.part, server.data);
}

#[test]
fn cancel_cleans_up_files() {
    let mut server = Server::new(2 * 1024 * 1024);
    let (p, mut disk) = start_shared(&mut server, &spec(8), None);
    let (mut shared, _) = segmented(p);
    let mut driver = Driver::new(8);
    let step = driver.start(&mut shared);
    drive(&mut server, &mut shared, &mut disk, &mut driver, step, Some(100_000));
    match driver.on_control(&mut shared, Some(ControlMsg::Cancel)) {
        DriverStep::End(end) => assert!(matches!(settle(end), Settlement::Discard)),
        _ => panic!("expected an end"),
    }
    assert!(shared.cancelled);
    // Cancelling while workers are busy waits for them.
    let (p, _) = start_shared(&mut server, &spec(8), None);
    let (mut shared, _) = segmented(p);
    let mut driver = Driver::new(8);
    driver.start(&mut shared);
    assert!(matches!(driver.on_control(&mut shared, None), DriverStep::AwaitBatch));
    let gate = stream_gate(&shared, &shared.segments[0].clone());
    assert!(matches!(gate, Some(StreamOutcome::Flag(WorkerExit::Cancelled))));
    let step = driver.on_batch(&mut shared, &vec![Ok(WorkerExit::Cancelled)]);
    assert!(matches!(step, DriverStep::End(Err(DownloadEnd::Cancelled))));
}

#[test]
fn corrupt_control_file_restarts_cleanly() {
    let mut server = Server::new(512 * 1024);
    let found = server.probe().unwrap();
    let broken = Err(SparklingError::CorruptControlFile("x".into()));
    match plan(&spec(8), found, "file.bin".into(), Some(broken)) {
        Plan::Segmented { shared, discard } => {
            assert!(discard);
            assert_eq!(shared.downloaded, 0);
            assert_eq!(shared.segments, split(512 * 1024, 8));
        }
        _ => panic!("expected a segmented download"),
    }
}

#[test]
fn range_not_satisfiable_resets_the_segment() {
    let mut server = Server::new(1024 * 1024);
    let probed = server.probe().unwrap();
    let mut shared = fresh_shared(&spec(1), "f".into(), probed);
    shared.add_progress(0, 5000);
    let mut w = SegmentWorker::new(shared.segment(0));
    let e = check_fetch(416, URL).unwrap_err();
    let (step, save) = w.on_fetch(&mut shared, &RetryPolicy::fast(), FetchReply::Refused(e));
    assert!(matches!(step, WorkerStep::Wait(_)));
    assert!(save.is_none());
    assert_eq!(w.seg.downloaded, 0);
    assert_eq!(shared.downloaded, 0);
    assert_eq!(w.attempt, 1);
}

#[test]
fn ignored_range_is_a_failure() {
    let mut server = Server::new(1024 * 1024);
    let probed = server.probe().unwrap();
    let mut shared = fresh_shared(&spec(2), "f".into(), probed);
    let policy = RetryPolicy::fast();
    let mut w = SegmentWorker::new(shared.segment(1));
    for _ in 0..5 {
        let (step, _) = w.on_fetch(&mut shared, &policy, FetchReply::Opened(200));
        assert!(matches!(step, WorkerStep::Wait(_)));
    }
    let (step, _) = w.on_fetch(&mut shared, &policy, FetchReply::Opened(200));
    assert!(matches!(step, WorkerStep::Exit(Err(SparklingError::Network(s))) if s == "服务器忽略 Range 请求"));
    assert!(shared.failed.is_some());
    // The other workers stop, and the batch fails.
    assert!(matches!(
        stream_gate(&shared, &shared.segments[0].clone()),
        Some(StreamOutcome::Flag(WorkerExit::Failed))
    ));
    assert!(matches!(
        check_fatal(&vec![Ok(WorkerExit::Failed)], &shared),
        Some(DownloadEnd::Failed(SparklingError::Network(_)))
    ));
}

#[test]
fn early_end_is_reported() {
    let mut server = Server::new(1000);
    let probed = server.probe().unwrap();
    let mut shared = fresh_shared(&spec(1), "f".into(), probed);
    let policy = RetryPolicy { max_retries: 0, ..RetryPolicy::fast() };
    let mut w = SegmentWorker::new(shared.segment(0));
    stream_read(&mut shared, &mut w.seg, ReadEvent::Written(400));
    let (step, _) = w.on_stream(&mut shared, &policy, StreamOutcome::Eof);
    assert!(matches!(
        step,
        WorkerStep::Exit(Err(SparklingError::Network(s))) if s == "分片 0 提前结束，剩余 600 字节"
    ));
}

#[test]
fn read_events_end_the_stream() {
    let mut server = Server::new(1000);
    let probed = server.probe().unwrap();
    let mut shared = fresh_shared(&spec(1), "f".into(), probed);
    let mut seg = shared.segment(0);
    let text = |o: Option<StreamOutcome>| match o {
        Some(StreamOutcome::Retry(e)) => format!("retry {}", e.user_message()),
        Some(StreamOutcome::Fatal(e)) => format!("fatal {}", e.user_message()),
        Some(StreamOutcome::Eof) => "eof".to_string(),
        _ => "other".to_string(),
    };
    assert_eq!(text(stream_read(&mut shared, &mut seg, ReadEvent::TimedOut)), "retry 网络错误: 读取超时");
    assert_eq!(text(stream_read(&mut shared, &mut seg, ReadEvent::Ended)), "eof");
    assert_eq!(
        text(stream_read(&mut shared, &mut seg, ReadEvent::Broken("x".into()))),
        "retry 网络错误: 连接中断: x"
    );
    assert_eq!(
        text(stream_read(&mut shared, &mut seg, ReadEvent::DiskFailed("满".into()))),
        "fatal 磁盘写入失败: 满"
    );
    assert!(stream_read(&mut shared, &mut seg, ReadEvent::Written(1000)).is_none());
    assert!(matches!(stream_gate(&shared, &seg), Some(StreamOutcome::Eof)));
    shared.paused = true;
    assert!(matches!(stream_gate(&shared, &seg), Some(StreamOutcome::Flag(WorkerExit::Paused))));
}

#[test]
fn disk_failure_is_final() {
    let mut server = Server::new(1000);
    let probed = server.probe().unwrap();
    let mut shared = fresh_shared(&spec(1), "f".into(), probed);
    let mut w = SegmentWorker::new(shared.segment(0));
    let e = SparklingError::DiskWrite("满".into());
    let (step, _) = w.on_stream(&mut shared, &RetryPolicy::fast(), StreamOutcome::Fatal(e));
    assert!(matches!(step, WorkerStep::Exit(Err(SparklingError::DiskWrite(_)))));
    assert!(matches!(shared.failed, Some(SparklingError::DiskWrite(_))));
}

/// Runs the sequential worker over a server without range support.
fn run_sequential(server: &mut Server) -> (Shared, Vec<u8>, Result<WorkerExit, SparklingError>, u64) {
    let (p, disk) = start_shared(server, &spec(8), None);
    let mut part = disk.part;
    let mut shared = match p {
        Plan::Sequential { shared, discard } => {
            assert!(!discard);
            shared
        }
        _ => panic!("expected a sequential download"),
    };
    let policy = RetryPolicy::fast();
    let mut w = SequentialWorker::new();
    let mut restarts = 0;
    let mut step = w.begin(&shared);
    loop {
        step = match step {
            WorkerStep::Fetch { start, end } => {
                let resp = server.get(Some((start, end)));
                let reply = match check_fetch(resp.status, URL) {
                    Ok(()) => FetchReply::Opened(resp.status),
                    Err(e) => FetchReply::Refused(e),
                };
                match w.on_fetch(&mut shared, &policy, reply) {
                    WorkerStep::Stream => {
                        let mut seg = shared.segment(0);
                        let mut at = 0;
                        let outcome = loop {
                            if let Some(o) = stream_gate(&shared, &seg) {
                                break o;
                            }
                            let ev = if at < resp.body.len() {
                                let n = CHUNK.min(resp.body.len() - at);
                                part[at..at + n].copy_from_slice(&resp.body[at..at + n]);
                                at += n;
                                ReadEvent::Written(n as u64)
                            } else if resp.broken {
                                ReadEvent::Broken("reset".into())
                            } else {
                                ReadEvent::Ended
                            };
                            if let Some(o) = stream_read(&mut shared, &mut seg, ev) {
                                break o;
                            }
                        };
                        w.on_stream(&mut shared, &policy, outcome)
                    }
                    other => other,
                }
            }
            WorkerStep::Wait(_) => {
                assert_eq!(shared.downloaded, 0);
                restarts += 1;
                w.begin(&shared)
            }
            WorkerStep::Exit(r) => return (shared, part, r, restarts),
            WorkerStep::Stream => unreachable!(),
        };
    }
}

#[test]
fn no_range_downloads_sequentially() {
    let mut server = Server::new(256 * 1024);
    server.range = false;
    let (shared, part, exit, _) = run_sequential(&mut server);
    assert!(matches!(settle_sequential(exit), Settlement::Publish));
    assert_eq!(shared.downloaded, 256 * 1024);
    assert!(finalize(&shared, Ok(part.clone())).is_ok());
    assert_eq!(part, server.data);
}

#[test]
fn no_range_drop_restarts_from_zero() {
    let mut server = Server::new(1024 * 1024);
    server.range = false;
    server.drop_after = Some(512 * 1024);
    server.drops_left = 2;
    let (shared, part, exit, restarts) = run_sequential(&mut server);
    assert!(matches!(exit, Ok(WorkerExit::Done)));
    assert_eq!(restarts, 1);
    assert_eq!(shared.downloaded, 1024 * 1024);
    assert_eq!(part, server.data);
}

#[test]
fn server_416_falls_back_to_plain_get() {
    let mut server = Server::new(1024 * 1024);
    server.always_416 = true;
    let (shared, part, exit, _) = run_sequential(&mut server);
    assert!(matches!(exit, Ok(WorkerExit::Done)));
    assert!(!shared.probe.supports_range);
    assert_eq!(part, server.data);
    assert_eq!(server.requests, vec![Some("bytes=0-0".to_string()), None, None]);
}

#[test]
fn sequential_download_can_only_be_cancelled() {
    let mut server = Server::new(1000);
    let probed = server.probe().unwrap();
    let mut shared = fresh_shared(&spec(1), "f".into(), probed);
    assert!(!control_sequential(&mut shared, Some(ControlMsg::Pause)));
    assert!(!control_sequential(&mut shared, Some(ControlMsg::Resume)));
    assert!(!shared.cancelled && !shared.paused);
    assert!(control_sequential(&mut shared, Some(ControlMsg::Cancel)));
    assert!(shared.cancelled);
    assert!(matches!(settle_sequential(Ok(WorkerExit::Cancelled)), Settlement::Discard));
    assert!(matches!(
        settle_sequential(Err(SparklingError::Other("x".into()))),
        Settlement::Keep(_)
    ));
}

#[test]
fn wrong_md5_fails_without_producing_file() {
    let mut server = Server::new(256 * 1024);
    server.md5 = Some("AAAAAAAAAAAAAAAAAAAAAA==".into());
    let (shared, disk, end) = run_to_end(&mut server, 8);
    assert!(end.is_ok());
    let e = finalize(&shared, Ok(disk.part)).unwrap_err();
    let mut snap = initial_snapshot(None);
    supervise(&mut snap, Err(DownloadEnd::Failed(e)));
    assert_eq!(snap.state, TaskState::Failed);
    assert!(snap.error.unwrap().contains("校验"));
}

#[test]
fn known_checksums() {
    assert_eq!(content_md5(b""), "1B2M2Y8AsgTpgAmY7PhCfg==");
    assert_eq!(content_md5(b"hello world"), "XrY7u+Ae7tCTyyK7j1rNww==");
}

#[test]
fn publishing_checks_in_order() {
    let mut server = Server::new(1000);
    let probed = server.probe().unwrap();
    let mut shared = fresh_shared(&spec(4), "f".into(), probed);
    shared.add_progress(0, 10);
    let text = |r: Result<(), SparklingError>| r.unwrap_err().user_message();
    assert_eq!(text(finalize_with(&shared, Err("x".into()))), "下载数量不一致: 10 / 1000");
    for i in 0..4 {
        shared.add_progress(i, 10_000);
    }
    assert_eq!(shared.downloaded, 1000);
    assert_eq!(text(finalize_with(&shared, Err("x".into()))), "磁盘写入失败: x");
    assert!(finalize_with(&shared, Ok(content_md5(&server.data))).is_ok());
    let wrong = finalize_with(&shared, Ok("zz".into())).unwrap_err();
    assert!(matches!(wrong, SparklingError::ChecksumMismatch { actual, .. } if actual == "zz"));
    shared.probe.content_md5 = None;
    assert!(finalize_with(&shared, Err("x".into())).is_ok());
    assert_eq!(publish_error(PublishStep::Overwrite, "y").user_message(), "磁盘写入失败: 覆盖旧文件失败: y");
    assert_eq!(publish_error(PublishStep::Rename, "y").user_message(), "磁盘写入失败: 重命名失败: y");
}

#[test]
fn empty_file_completes_immediately() {
    let mut server = Server::new(0);
    let (p, _) = start_shared(&mut server, &spec(8), None);
    assert!(matches!(p, Plan::Empty));
}

#[test]
fn user_filename_overrides() {
    let mut server = Server::new(100);
    let probed = server.probe().unwrap();
    let mut s = spec(1);
    assert_eq!(target_name(&s, &probed), "file.bin");
    s.filename = Some("自定义.bin".into());
    assert_eq!(target_name(&s, &probed), "自定义.bin");
}

#[test]
fn user_filename_traversal_is_sanitized() {
    let mut server = Server::new(100);
    let probed = server.probe().unwrap();
    let mut s = spec(1);
    s.filename = Some("..\\..\\evil.exe".into());
    assert_eq!(target_name(&s, &probed), "evil.exe");
    for (name, safe) in [
        ("a/b", "b"),
        ("C:\\evil", "evil"),
        ("../..", "download"),
        ("", "download"),
        ("a/", "download"),
        (".", "download"),
        ("x\\y/z\\w", "w"),
        ("..a", "..a"),
        ("C:evil", "C_evil"),
        ("Q: 为什么", "Q_ 为什么"),
        ("a/C:", "C_"),
        ("C:D:x", "C_D:x"),
        ("10:30.mp4", "10:30.mp4"),
    ] {
        assert_eq!(sanitize_filename(name), safe);
        assert_eq!(sanitize_filename(&sanitize_filename(name)), safe);
    }
    assert_eq!(part_path_for("dl/evil.exe"), "dl/evil.exe.sparkling.part");
}

#[test]
fn range_headers() {
    assert_eq!(range_header(0, Some(9)).as_deref(), Some("bytes=0-9"));
    assert_eq!(range_header(5, None).as_deref(), Some("bytes=5-"));
    assert_eq!(range_header(0, None), None);
    assert!(check_fetch(299, URL).is_ok());
    assert_eq!(
        check_fetch(404, URL).unwrap_err().user_message(),
        format!("服务器返回 404: GET 失败: {URL}")
    );
    assert_eq!(
        check_fetch(416, URL).unwrap_err().user_message(),
        "服务器返回 416: Range 不可满足，将重置分片"
    );
}

#[test]
fn progress_is_derived_and_clamped() {
    let mut server = Server::new(1000);
    let probed = server.probe().unwrap();
    let mut shared = fresh_shared(&spec(4), "f".into(), probed);
    shared.add_progress(1, 100);
    assert_eq!(shared.downloaded, 100);
    shared.add_progress(1, 900);
    assert_eq!(shared.downloaded, 250);
    shared.add_progress(77, 900);
    assert_eq!(shared.downloaded, 250);
    assert_eq!(shared.segment_len(1), 250);
    assert_eq!(shared.segment_len(77), 0);
    assert_eq!(shared.snapshot_segments()[1].downloaded, 250);
    assert!(shared.steal_largest().is_none());
}

#[test]
fn stealing_halves_the_richest() {
    let mut server = Server::new(2 * 1024 * 1024);
    let probed = server.probe().unwrap();
    let mut shared = fresh_shared(&spec(2), "f".into(), probed);
    // Of two segments with as much left, the last one is cut.
    let stolen = shared.steal_largest().unwrap();
    assert_eq!(stolen.index, 2);
    assert_eq!(stolen.start, 1024 * 1024 + 512 * 1024);
    assert_eq!(stolen.end, 2 * 1024 * 1024 - 1);
    assert_eq!(shared.segments[1].end, stolen.start - 1);
    assert_eq!(shared.segments.len(), 3);
    let sum: u64 = shared.segments.iter().map(|s| s.len()).sum();
    assert_eq!(sum, 2 * 1024 * 1024);
}

#[test]
fn batches_take_the_richest_first() {
    let mut server = Server::new(1000);
    let probed = server.probe().unwrap();
    let mut shared = fresh_shared(&spec(4), "f".into(), probed);
    shared.add_progress(0, 250);
    shared.add_progress(1, 200);
    shared.add_progress(2, 10);
    let mut driver = Driver::new(2);
    match driver.start(&mut shared) {
        DriverStep::Spawn(batch) => {
            let order: Vec<usize> = batch.iter().map(|s| s.index).collect();
            assert_eq!(order, vec![3, 2]);
        }
        _ => panic!("expected a batch"),
    }
    let order: Vec<usize> = shared.segments.iter().map(|s| s.index).collect();
    assert_eq!(order, vec![3, 2, 1, 0]);
    assert_eq!(Driver::new(0).workers, 1);
}

#[test]
fn validators() {
    let some = |s: &str| Some(s.to_string());
    assert!(validator_matches(&some("a"), &some("a")));
    assert!(!validator_matches(&some("a"), &some("b")));
    assert!(validator_matches(&None, &some("b")));
    assert!(validator_matches(&some("a"), &None));
    let mut server = Server::new(10);
    let a = server.probe().unwrap();
    assert!(unchanged(&a, &a.clone()));
    server.set_v2();
    assert!(!unchanged(&a, &server.probe().unwrap()));
}

#[test]
fn unusable_tables() {
    assert!(usable_table(&split(100, 4)));
    let mut twice = split(100, 4);
    twice[1].index = 0;
    assert!(!usable_table(&twice));
    let mut beyond = split(100, 4);
    beyond[1].index = 4;
    assert!(!usable_table(&beyond));
    let huge = Segment { index: 0, start: 1, end: u64::MAX, downloaded: 0 };
    let more = Segment { index: 1, start: 0, end: 0, downloaded: 0 };
    assert!(usable_table(&vec![huge]));
    assert!(!usable_table(&vec![huge, more]));
}

#[test]
fn reports_frames_and_saves() {
    let mut server = Server::new(1000);
    let probed = server.probe().unwrap();
    let mut shared = fresh_shared(&spec(2), "f.bin".into(), probed);
    let mut r = Reporter::new();
    let second = 1_000_000_000;
    let mut saves = 0;
    for i in 0..16u64 {
        shared.add_progress(0, i * 10);
        match r.on_tick(&shared, i * second / 4) {
            ReportStep::Frame { snapshot, bytes, nanos } => {
                assert_eq!(snapshot.downloaded, i * 10);
                assert_eq!(snapshot.total, 1000);
                assert_eq!(snapshot.state, TaskState::Running);
                assert_eq!(snapshot.filename.as_deref(), Some("f.bin"));
                // The window is three seconds, that is twelve frames.
                let kept = i.min(12);
                assert_eq!(bytes, kept * 10);
                assert_eq!(nanos, kept * second / 4);
            }
            _ => panic!("expected a frame"),
        }
        if r.on_sent(&shared, true).is_some() {
            saves += 1;
        }
    }
    assert_eq!(saves, 2);
    assert!(r.on_sent(&shared, false).is_none());
    shared.paused = true;
    assert!(matches!(r.on_tick(&shared, 5 * second), ReportStep::Skip));
    shared.finished = true;
    match r.on_tick(&shared, 5 * second) {
        ReportStep::Last(snap) => {
            assert_eq!(snap.downloaded, 150);
            assert_eq!(snap.speed, 0);
            assert_eq!(snap.segments.len(), 2);
        }
        _ => panic!("expected the last frame"),
    }
}

/// A download up to the moment at which its workers start.
fn course(server: &mut Server, spec: TaskSpec, free: u64, ctl: Option<ControlFile>) -> (Download, RunStep) {
    let mut run = Download::new(spec, RetryPolicy::fast());
    let mut step = RunStep::Probe;
    let mut ctl = ctl.map(Ok);
    loop {
        step = match step {
            RunStep::Probe | RunStep::ProbeAfter(_) | RunStep::DiscardAndProbe => run.on_probe(server.probe()),
            RunStep::AskSpace => run.on_space(Ok(free)),
            RunStep::LookForControl => run.on_control_file(ctl.take()),
            other => return (run, other),
        };
    }
}

#[test]
fn course_of_a_download() {
    let mut server = Server::new(1024 * 1024);
    server.fail_first = 2;
    let (mut run, step) = course(&mut server, spec(4), u64::MAX, None);
    assert_eq!(run.filename.as_deref(), Some("file.bin"));
    let mut shared = match step {
        RunStep::Begin(p) => segmented(p).0,
        _ => panic!("expected workers"),
    };
    assert!(matches!(run.on_prepared(Ok(())), RunStep::Work));
    let mut disk = Disk { part: vec![0; 1024 * 1024], saved: None };
    let mut driver = Driver::new(4);
    let first = driver.start(&mut shared);
    let end = match drive(&mut server, &mut shared, &mut disk, &mut driver, first, None) {
        DriverStep::End(end) => end,
        _ => panic!("expected an end"),
    };
    assert!(matches!(run.on_driver_end(end), RunStep::Publish));
    let published = finalize(&shared, Ok(disk.part));
    assert!(matches!(run.on_published(published), RunStep::End(Ok(()))));
}

#[test]
fn probe_error_fails_task() {
    let mut server = Server::new(1024);
    server.fail = true;
    let (run, step) = course(&mut server, spec(4), u64::MAX, None);
    match step {
        RunStep::End(Err(DownloadEnd::Failed(e))) => assert!(e.user_message().contains("500")),
        _ => panic!("expected a failure"),
    }
    assert_eq!(run.phase, RunPhase::Ended);
    assert_eq!(server.requests.len(), 6);
}

#[test]
fn full_disk_stops_before_any_file() {
    let mut server = Server::new(1000);
    let (_, step) = course(&mut server, spec(4), 1019, None);
    assert!(matches!(
        step,
        RunStep::End(Err(DownloadEnd::Failed(SparklingError::InsufficientDisk { required: 1020, available: 1019 })))
    ));
    let (_, step) = course(&mut server, spec(4), 1020, None);
    assert!(matches!(step, RunStep::Begin(Plan::Segmented { .. })));
    let mut run = Download::new(spec(1), RetryPolicy::fast());
    run.on_probe(server.probe());
    assert!(matches!(
        run.on_space(Err("x".into())),
        RunStep::End(Err(DownloadEnd::Failed(SparklingError::DiskWrite(_))))
    ));
}

#[test]
fn empty_file_is_only_created() {
    let mut server = Server::new(0);
    let (mut run, step) = course(&mut server, spec(4), u64::MAX, None);
    assert!(matches!(step, RunStep::CreateEmpty));
    assert!(matches!(run.on_created(Ok(())), RunStep::End(Ok(()))));
    let (mut run, _) = course(&mut server, spec(4), u64::MAX, None);
    assert!(matches!(
        run.on_created(Err("满".into())),
        RunStep::End(Err(DownloadEnd::Failed(SparklingError::DiskWrite(_))))
    ));
}

#[test]
fn changed_file_starts_over_under_its_name() {
    let mut server = Server::new(1000);
    let mut named = spec(4);
    named.filename = Some("mine.bin".into());
    let (mut run, _) = course(&mut server, named, u64::MAX, None);
    run.on_prepared(Ok(()));
    server.set_v2();
    assert!(matches!(run.on_driver_end(Err(DownloadEnd::RestartNeeded)), RunStep::DiscardAndProbe));
    assert!(matches!(run.on_probe(server.probe()), RunStep::AskSpace));
    match run.on_space(Ok(u64::MAX)) {
        RunStep::Begin(p) => {
            let (shared, discard) = segmented(p);
            assert!(!discard);
            assert_eq!(shared.filename, "mine.bin");
            assert_eq!(shared.segments, split(1000, 4));
            assert_eq!(shared.probe.etag.as_deref(), Some("\"v2\""));
        }
        _ => panic!("expected workers"),
    }
    // The probe of a download that starts over is made once.
    run.on_prepared(Ok(()));
    run.on_driver_end(Err(DownloadEnd::RestartNeeded));
    server.fail = true;
    assert!(matches!(run.on_probe(server.probe()), RunStep::End(Err(DownloadEnd::Failed(_)))));
}

#[test]
fn ends_of_a_download() {
    let mut server = Server::new(1000);
    let ready = |server: &mut Server| {
        let (mut run, _) = course(server, spec(4), u64::MAX, None);
        run.on_prepared(Ok(()));
        run
    };
    let mut run = ready(&mut server);
    assert!(matches!(run.on_driver_end(Err(DownloadEnd::Cancelled)), RunStep::DiscardAndEnd));
    let mut run = ready(&mut server);
    let e = SparklingError::Network("x".into());
    assert!(matches!(run.on_driver_end(Err(DownloadEnd::Failed(e))), RunStep::End(Err(DownloadEnd::Failed(_)))));
    let mut run = ready(&mut server);
    assert!(matches!(run.on_worker_exit(Ok(WorkerExit::Cancelled)), RunStep::DiscardAndEnd));
    let mut run = ready(&mut server);
    assert!(matches!(run.on_worker_exit(Ok(WorkerExit::Done)), RunStep::Publish));
    let e = SparklingError::ChecksumMismatch { expected: "a".into(), actual: "b".into() };
    assert!(matches!(run.on_published(Err(e)), RunStep::End(Err(DownloadEnd::Failed(_)))));
    let (mut run, _) = course(&mut server, spec(4), u64::MAX, None);
    assert!(matches!(
        run.on_prepared(Err("满".into())),
        RunStep::End(Err(DownloadEnd::Failed(SparklingError::DiskWrite(_))))
    ));
}

#[test]
fn part_file_is_created_anew() {
    let mut server = Server::new(1000);
    let (p, _) = start_shared(&mut server, &spec(4), None);
    assert!(!needs_new_part(&p, Some(1000)));
    assert!(needs_new_part(&p, Some(999)));
    assert!(needs_new_part(&p, None));
    server.range = false;
    let (p, _) = start_shared(&mut server, &spec(4), None);
    assert!(needs_new_part(&p, Some(1000)));
    assert!(!needs_new_part(&Plan::Empty, None));
}

#[test]
fn lost_part_file_starts_anew() {
    let mut server = Server::new(2 * 1024 * 1024);
    let total = 2 * 1024 * 1024;
    let spec = spec(8);
    let (p, mut disk) = start_shared(&mut server, &spec, None);
    let (mut stopped, _) = segmented(p);
    let mut driver = Driver::new(8);
    let step = driver.start(&mut stopped);
    drive(&mut server, &mut stopped, &mut disk, &mut driver, step, Some(300_000));
    let cf = stopped.build_control_file();
    let before: u64 = cf.segments.iter().map(|s| s.downloaded).sum();

    // The whole part file is still there: the download goes on.
    let (p, _) = start_shared(&mut server, &spec, Some(stopped.build_control_file()));
    let (kept, discard) = segmented(renew_plan(p, &spec, Some(total)));
    assert!(!discard);
    assert_eq!(kept.downloaded, before);
    assert_eq!(kept.segments, cf.segments);

    // It is gone, or another: nothing counts, and the file still comes out right.
    for len in [None, Some(0), Some(total - 1), Some(total + 1)] {
        let (p, mut disk) = start_shared(&mut server, &spec, Some(stopped.build_control_file()));
        let renewed = renew_plan(p, &spec, len);
        assert!(needs_new_part(&renewed, None));
        let (mut shared, discard) = segmented(renewed);
        assert!(discard);
        assert_eq!(shared.downloaded, 0);
        assert_eq!(shared.segments, split(total, 8));
        let mut driver = Driver::new(8);
        let step = driver.start(&mut shared);
        let end = drive(&mut server, &mut shared, &mut disk, &mut driver, step, None);
        assert!(matches!(end, DriverStep::End(Ok(()))));
        assert_eq!(disk.part, server.data);
    }

    // A plan without segments stays as it is.
    assert!(matches!(renew_plan(Plan::Empty, &spec, None), Plan::Empty));
    server.range = false;
    let (p, _) = start_shared(&mut server, &spec, None);
    assert!(matches!(renew_plan(p, &spec, None), Plan::Sequential { discard: false, .. }));
}

#[test]
fn finished_file_goes_into_its_directory() {
    let mut server = Server::new(1000);
    let (run, _) = course(&mut server, spec(4), u64::MAX, None);
    let expected = std::path::Path::new("dl").join("file.bin").display().to_string();
    assert_eq!(run.final_path(), expected);
    let mut other = spec(4);
    other.save_dir = "dl/".into();
    let (run, _) = course(&mut server, other, u64::MAX, None);
    let expected = std::path::Path::new("dl/").join("file.bin").display().to_string();
    assert_eq!(run.final_path(), expected);
}

#[test]
fn control_files_to_go_on_from() {
    let why = |segments: Vec<Segment>| {
        let cf = ControlFile {
            url: URL.into(),
            etag: None,
            last_modified: None,
            total_size: 100,
            supports_range: true,
            filename: "f".into(),
            segments,
        };
        match load_usable(Ok(cf)) {
            Ok(cf) => {
                assert_eq!((cf.total_size, cf.filename.as_str()), (100, "f"));
                format!("{} 个分片", cf.segments.len())
            }
            Err(SparklingError::CorruptControlFile(why)) => why,
            Err(e) => panic!("{}", e.user_message()),
        }
    };
    assert_eq!(why(split(100, 4)), "4 个分片");
    assert_eq!(why(vec![]), "0 个分片");
    let mut broken = split(100, 4);
    broken[2].downloaded = 26;
    assert_eq!(why(broken.clone()), "分片 2 不变量破坏: downloaded=26 len=25");
    let all = Segment { index: 0, start: 0, end: u64::MAX, downloaded: 0 };
    broken.push(all);
    assert_eq!(why(broken), "分片长度溢出");
    let mut twice = split(100, 4);
    twice[1].index = 0;
    assert_eq!(why(twice), "分片编号或总长无效");
    let failed = |fault: LoadFault| match load_usable(Err(fault)) {
        Err(SparklingError::CorruptControlFile(why)) => why,
        _ => panic!("expected a fault"),
    };
    assert_eq!(failed(LoadFault::Read("x".into())), "读取失败: x");
    assert_eq!(failed(LoadFault::Parse("y".into())), "JSON 解析失败: y");
}

#[test]
fn aborted_worker_cancels() {
    let mut server = Server::new(1000);
    let probed = server.probe().unwrap();
    let mut shared = fresh_shared(&spec(2), "f".into(), probed);
    let outs = batch_outcomes(&mut shared, vec![Some(Ok(WorkerExit::Done)), Some(Ok(WorkerExit::Paused))]);
    assert!(!shared.cancelled);
    assert!(matches!(outs[..], [Ok(WorkerExit::Done), Ok(WorkerExit::Paused)]));
    let e = SparklingError::Network("x".into());
    let outs = batch_outcomes(&mut shared, vec![Some(Ok(WorkerExit::Done)), None, Some(Err(e))]);
    assert!(shared.cancelled);
    assert!(matches!(
        outs[..],
        [Ok(WorkerExit::Done), Ok(WorkerExit::Cancelled), Err(SparklingError::Network(_))]
    ));
    // An error of a worker still counts before the cancelling.
    assert!(matches!(check_fatal(&outs, &shared), Some(DownloadEnd::Failed(_))));
}

#[test]
fn submitting_and_ending() {
    let (id, snap) = submit_http(&spec(1)).unwrap();
    assert_eq!(id.len(), 36);
    assert_eq!(snap.state, TaskState::Running);
    assert_eq!(snap.filename, None);
    let mut video = spec(1);
    video.kind = TaskKind::Video;
    assert_eq!(submit_http(&video).unwrap_err().user_message(), "HttpEngine 收到非 HTTP 任务");
    let mut snap = initial_snapshot(Some("n".into()));
    set_state(&mut snap, TaskState::Paused);
    assert_eq!(snap.state, TaskState::Paused);
    supervise(&mut snap, Ok(()));
    assert_eq!(snap.state, TaskState::Completed);
    supervise(&mut snap, Err(DownloadEnd::Cancelled));
    assert_eq!(snap.state, TaskState::Cancelled);
}
