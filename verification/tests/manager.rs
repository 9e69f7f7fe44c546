use sparkling_core::engine::{initial_snapshot, ControlMsg, ProgressSnapshot};
use sparkling_core::manager::{
    control_path, recovery_event, AddTaskOptions, CancelStep, Launch, Leftovers, ManagerConfig,
    Monitor, MonitorStep, RecoverStep, ResumeStep, TaskEvent, TaskManager,
};
use sparkling_core::store::TaskRecord;
use sparkling_core::task::{TaskKind, TaskState, VideoParams};
use sparkling_core::SparklingError;

fn opts() -> AddTaskOptions {
    AddTaskOptions {
        save_dir: "dl".into(),
        filename: None,
        segments: Some(4),
        max_speed: None,
        kind: TaskKind::Http,
        video: None,
        video_meta: None,
    }
}

fn video_opts() -> AddTaskOptions {
    AddTaskOptions {
        filename: Some("测试视频".into()),
        segments: None,
        kind: TaskKind::Video,
        video: Some(VideoParams {
            format: "bv*+ba/b".into(),
            subtitles: vec![],
            auto_subs: false,
        }),
        ..opts()
    }
}

fn limited(max_concurrent: usize) -> ManagerConfig {
    ManagerConfig { max_concurrent, ..Default::default() }
}

/// A manager with a store in memory, and the watches on its tasks.
struct World {
    m: TaskManager,
    store: Vec<TaskRecord>,
    watches: Vec<(String, Monitor)>,
    events: Vec<(String, TaskState)>,
    launched: Vec<Launch>,
}

impl World {
    fn new(cfg: ManagerConfig) -> Self {
        World { m: TaskManager::new(cfg), store: vec![], watches: vec![], events: vec![], launched: vec![] }
    }

    fn note(&mut self, ev: TaskEvent) {
        if let TaskEvent::State { id, state, error } = ev {
            if let Some(r) = self.store.iter_mut().find(|r| r.id == id) {
                r.state = state;
                r.error = error;
            }
            self.events.push((id, state));
        }
    }

    fn state(&self, id: &str) -> TaskState {
        self.store.iter().find(|r| r.id == id).unwrap().state
    }

    /// Starts what can be started; every engine takes its task.
    fn schedule(&mut self) {
        for l in self.m.try_schedule(&self.store) {
            let ev = self.m.on_submitted(&l.id, Ok(()));
            self.note(ev);
            self.watches.push((l.id.clone(), Monitor::new()));
            self.launched.push(l);
        }
    }

    fn add(&mut self, o: AddTaskOptions) -> String {
        let rec = self.m.add_task("http://127.0.0.1/file.bin".into(), o, 1700000000);
        let id = rec.id.clone();
        self.store.push(rec);
        let ev = self.m.enqueue(&id);
        self.note(ev);
        self.schedule();
        id
    }

    fn report(&mut self, id: &str, snap: ProgressSnapshot) -> MonitorStep {
        let i = self.watches.iter().position(|w| w.0 == id).unwrap();
        let step = self.watches[i].1.on_snapshot(&mut self.m, &id.to_string(), &snap);
        if let Some(r) = self.store.iter_mut().find(|r| r.id == id) {
            r.downloaded = snap.downloaded;
            r.total_size = Some(snap.total);
        }
        if step.stop {
            self.watches.remove(i);
        }
        MonitorStep {
            change: step.change.map(|ev| {
                self.note(ev);
                TaskEvent::State { id: id.to_string(), state: snap.state, error: None }
            }),
            ..step
        }
    }

    fn reach(&mut self, id: &str, state: TaskState) {
        let mut snap = initial_snapshot(None);
        snap.state = state;
        if self.report(id, snap).schedule {
            self.schedule();
        }
    }

    fn retry(&mut self, id: &str) {
        let stored = self.store.iter().find(|r| r.id == id).map(|r| r.state);
        if let Some(ev) = self.m.retry_task(id, Ok(stored)).unwrap() {
            self.note(ev);
            self.schedule();
        }
    }
}

#[test]
fn add_task_completes_and_persists() {
    let mut w = World::new(ManagerConfig::default());
    let id = w.add(opts());
    assert_eq!(id.len(), 36);
    assert_eq!(w.state(&id), TaskState::Running);
    let mut snap = initial_snapshot(Some("file.bin".into()));
    snap.state = TaskState::Completed;
    snap.downloaded = 256 * 1024;
    snap.total = 256 * 1024;
    let step = w.report(&id, snap);
    assert_eq!(step.filename.as_deref(), Some("file.bin"));
    assert!(step.stop && step.schedule);
    assert_eq!(w.store.len(), 1);
    assert_eq!(w.state(&id), TaskState::Completed);
    assert_eq!(w.store[0].downloaded, 256 * 1024);
    let states: Vec<TaskState> = w.events.iter().map(|e| e.1).collect();
    assert_eq!(states, vec![TaskState::Queued, TaskState::Running, TaskState::Completed]);
    assert_eq!(w.m.active(), 0);
}

#[test]
fn queue_respects_max_concurrent() {
    let mut w = World::new(limited(1));
    let a = w.add(opts());
    let b = w.add(opts());
    assert_ne!(a, b);
    assert_eq!((w.state(&a), w.state(&b)), (TaskState::Running, TaskState::Queued));
    assert_eq!(w.m.active(), 1);
    w.reach(&a, TaskState::Completed);
    assert_eq!((w.state(&a), w.state(&b)), (TaskState::Completed, TaskState::Running));
    assert_eq!(w.m.active(), 1);
}

#[test]
fn pause_resume_cancel_via_manager() {
    let mut w = World::new(ManagerConfig::default());
    let id = w.add(opts());
    assert!(matches!(w.m.pause_task(&id), Ok(ControlMsg::Pause)));
    w.reach(&id, TaskState::Paused);
    assert_eq!(w.state(&id), TaskState::Paused);
    assert_eq!(w.m.active(), 0);
    assert_eq!(w.m.resume_task(&id), ResumeStep::Send(ControlMsg::Resume));
    w.reach(&id, TaskState::Running);
    assert_eq!(w.m.active(), 1);
    w.reach(&id, TaskState::Completed);
    assert_eq!(w.m.active(), 0);

    let id2 = w.add(opts());
    assert!(matches!(w.m.cancel_task(&id2), CancelStep::Send(ControlMsg::Cancel)));
    w.reach(&id2, TaskState::Cancelled);
    assert_eq!(w.state(&id2), TaskState::Cancelled);
    let missing = w.m.pause_task("nope").unwrap_err();
    assert_eq!(missing.user_message(), "任务不存在: nope");
}

#[test]
fn paused_task_frees_its_slot() {
    let mut w = World::new(limited(1));
    let a = w.add(opts());
    let b = w.add(opts());
    w.reach(&a, TaskState::Paused);
    assert_eq!(w.state(&b), TaskState::Running);
    // Ending while paused frees nothing more.
    w.reach(&a, TaskState::Cancelled);
    assert_eq!(w.m.active(), 1);
    assert!(!w.m.has_handle(&a));
}

#[test]
fn retry_is_idempotent() {
    let mut w = World::new(ManagerConfig::default());
    let id = w.add(opts());
    w.reach(&id, TaskState::Completed);
    w.retry(&id);
    w.retry(&id);
    assert!(matches!(w.m.cancel_task(&id), CancelStep::Nothing));
    assert_eq!(w.state(&id), TaskState::Completed, "终态不得被重试/取消改写");
    // A failed task is queued once, however often it is retried.
    let mut w = World::new(limited(1));
    let busy = w.add(opts());
    let id = w.add(opts());
    assert!(matches!(w.m.cancel_task(&id), CancelStep::Dequeued(_)));
    w.store.iter_mut().find(|r| r.id == id).unwrap().state = TaskState::Failed;
    w.retry(&id);
    w.retry(&id);
    assert_eq!(w.m.queued(), vec![id.clone()]);
    w.retry(&busy);
    assert_eq!(w.m.queued(), vec![id]);
    let e = w.m.retry_task("other", Err(SparklingError::Other("查询失败: x".into())));
    assert_eq!(e.unwrap_err().user_message(), "查询失败: x");
}

#[test]
fn cancel_queued_task_dequeues() {
    let mut w = World::new(limited(1));
    let a = w.add(opts());
    let b = w.add(opts());
    assert_eq!(w.state(&b), TaskState::Queued);
    match w.m.cancel_task(&b) {
        CancelStep::Dequeued(ev) => w.note(ev),
        _ => panic!("expected the task to leave the queue"),
    }
    assert_eq!(w.state(&b), TaskState::Cancelled);
    w.reach(&a, TaskState::Completed);
    assert_eq!(w.state(&b), TaskState::Cancelled);
    assert_eq!(w.launched.len(), 1);
}

#[test]
fn retry_failed_continues_from_control_file() {
    let mut w = World::new(ManagerConfig::default());
    let id = w.add(opts());
    let mut snap = initial_snapshot(None);
    snap.state = TaskState::Failed;
    snap.error = Some("服务器返回 500".into());
    w.report(&id, snap);
    assert_eq!(w.store[0].error.as_deref(), Some("服务器返回 500"));
    w.retry(&id);
    assert_eq!(w.state(&id), TaskState::Running);
    assert_eq!(w.store[0].error, None);
    assert_eq!(w.launched.len(), 2);
}

fn stored(id: &str, state: TaskState, kind: TaskKind) -> TaskRecord {
    let m = TaskManager::new(ManagerConfig::default());
    let mut rec = m.add_task("u".into(), AddTaskOptions { kind, ..opts() }, 0);
    rec.id = id.into();
    rec.state = state;
    rec.filename = Some("file.bin".into());
    rec
}

#[test]
fn recovery_auto_resumes() {
    let m = TaskManager::new(ManagerConfig::default());
    let recs = vec![
        stored("a", TaskState::Running, TaskKind::Http),
        stored("b", TaskState::Paused, TaskKind::Http),
        stored("c", TaskState::Queued, TaskKind::Http),
        stored("d", TaskState::Completed, TaskKind::Http),
        stored("e", TaskState::Failed, TaskKind::Http),
        stored("f", TaskState::Cancelled, TaskKind::Video),
    ];
    assert_eq!(
        m.recover(&recs, &vec![true; 6]),
        vec![
            RecoverStep::Resume,
            RecoverStep::Resume,
            RecoverStep::Enqueue,
            RecoverStep::Skip,
            RecoverStep::Skip,
            RecoverStep::Skip
        ]
    );
    assert!(recovery_event(&"a".to_string(), RecoverStep::Resume).is_none());
}

#[test]
fn recovery_corrupt_ctl_marks_failed() {
    let m = TaskManager::new(ManagerConfig::default());
    let recs = vec![stored("a", TaskState::Running, TaskKind::Http)];
    let steps = m.recover(&recs, &vec![false]);
    assert_eq!(steps, vec![RecoverStep::Fail]);
    match recovery_event(&recs[0].id, steps[0]) {
        Some(TaskEvent::State { id, state, error }) => {
            assert_eq!((id.as_str(), state), ("a", TaskState::Failed));
            assert!(error.as_deref().unwrap().contains("控制文件"));
        }
        _ => panic!("expected a notice"),
    }
    let ctl = control_path(&recs[0]).unwrap();
    let done = std::path::Path::new("dl").join("file.bin").display().to_string();
    assert_eq!(ctl, format!("{done}.sparkling"));
    let mut unnamed = stored("a", TaskState::Running, TaskKind::Http);
    unnamed.filename = None;
    assert_eq!(control_path(&unnamed), None);
}

#[test]
fn recovery_disabled_stays_paused_then_manual_resume() {
    let cfg = ManagerConfig { auto_resume_on_start: false, ..Default::default() };
    let mut w = World::new(cfg);
    w.store.push(stored("a", TaskState::Running, TaskKind::Http));
    let steps = w.m.recover(&w.store, &vec![true]);
    assert_eq!(steps, vec![RecoverStep::Hold]);
    let ev = recovery_event(&"a".to_string(), steps[0]).unwrap();
    w.note(ev);
    assert_eq!(w.state("a"), TaskState::Paused);
    assert_eq!(w.m.resume_task("a"), ResumeStep::Retry);
    w.retry("a");
    assert_eq!(w.state("a"), TaskState::Running);
}

#[test]
fn paused_video_task_resumes_after_restart_recover() {
    let mut w = World::new(ManagerConfig::default());
    w.store.push(stored("v", TaskState::Paused, TaskKind::Video));
    // A video needs no control file.
    assert_eq!(w.m.recover(&w.store, &vec![false]), vec![RecoverStep::Resume]);
    w.retry("v");
    assert_eq!(w.state("v"), TaskState::Running);
    w.reach("v", TaskState::Completed);
    assert_eq!(w.state("v"), TaskState::Completed);
}

#[test]
fn move_to_top_reorders_queue() {
    let mut w = World::new(limited(1));
    let a = w.add(opts());
    let b = w.add(opts());
    let c = w.add(opts());
    w.m.move_to_top(&c);
    assert_eq!(w.m.queued(), vec![c.clone(), b.clone()]);
    w.reach(&a, TaskState::Completed);
    assert_eq!(w.state(&c), TaskState::Running);
    assert_eq!(w.state(&b), TaskState::Queued);
    w.reach(&c, TaskState::Completed);
    assert_eq!(w.state(&b), TaskState::Running);
}

#[test]
fn remove_task_cleans_orphan_ctl_and_part() {
    let mut m = TaskManager::new(ManagerConfig::default());
    let r = m.remove_task("a", Some(stored("a", TaskState::Running, TaskKind::Http)));
    assert!(!r.cancel);
    match r.leftovers {
        Some(Leftovers::Http { control_file, part_file }) => {
            let done = std::path::Path::new("dl").join("file.bin").display().to_string();
            assert_eq!(control_file, format!("{done}.sparkling"));
            assert_eq!(part_file, format!("{done}.sparkling.part"));
        }
        _ => panic!("expected files to delete"),
    }
    let r = m.remove_task("a", Some(stored("a", TaskState::Paused, TaskKind::Video)));
    assert!(matches!(r.leftovers, Some(Leftovers::Video { filename, .. }) if filename == "file.bin"));
    assert!(m.remove_task("a", None).leftovers.is_none());
    // A task in hand is cancelled, and its engine cleans up.
    let mut w = World::new(ManagerConfig::default());
    let id = w.add(opts());
    let rec = w.store[0].clone();
    let r = w.m.remove_task(&id, Some(rec));
    assert!(r.cancel && r.leftovers.is_none());
    // A waiting task leaves the queue.
    let mut w = World::new(limited(0));
    let id = w.add(opts());
    w.m.remove_task(&id, None);
    assert!(w.m.queued().is_empty());
}

#[test]
fn video_task_completes_through_queue() {
    let mut w = World::new(ManagerConfig::default());
    let id = w.add(video_opts());
    assert_eq!(w.launched[0].spec.kind, TaskKind::Video);
    assert_eq!(w.launched[0].spec.segments, 1);
    let mut snap = initial_snapshot(Some("测试视频".into()));
    snap.downloaded = 50;
    snap.total = 100;
    w.report(&id, snap.clone());
    snap.state = TaskState::Completed;
    let step = w.report(&id, snap);
    assert_eq!(step.filename, None);
    assert_eq!(w.store[0].kind, TaskKind::Video);
    assert_eq!(w.store[0].downloaded, 50);
    assert_eq!(w.store[0].video.as_ref().unwrap().format, "bv*+ba/b");
    assert_eq!(w.launched[0].spec.video.as_ref().unwrap().format, "bv*+ba/b");
}

#[test]
fn video_filename_sanitized_on_add() {
    for (malicious, expected) in [("a/b", "b"), ("C:\\evil", "evil")] {
        let mut w = World::new(ManagerConfig::default());
        w.add(AddTaskOptions { filename: Some(malicious.into()), ..video_opts() });
        assert_eq!(
            w.store[0].filename.as_deref(),
            Some(expected),
            "恶意文件名 {malicious:?} 应被消毒为 {expected:?}"
        );
    }
}

#[test]
fn mixed_queue_shares_concurrency_slots() {
    let mut w = World::new(limited(1));
    let v1 = w.add(video_opts());
    let v2 = w.add(video_opts());
    let h = w.add(opts());
    assert_eq!((w.state(&v1), w.state(&v2), w.state(&h)), (TaskState::Running, TaskState::Queued, TaskState::Queued));
    w.reach(&v1, TaskState::Completed);
    assert_eq!((w.state(&v2), w.state(&h)), (TaskState::Running, TaskState::Queued));
    w.reach(&v2, TaskState::Failed);
    assert_eq!(w.state(&h), TaskState::Running);
    w.reach(&h, TaskState::Completed);
    assert_eq!(w.m.active(), 0);
}

#[test]
fn new_records() {
    let m = TaskManager::new(ManagerConfig::default());
    let segments = |n, kind| m.add_task("u".into(), AddTaskOptions { segments: n, kind, ..opts() }, 5).segments;
    assert_eq!(segments(None, TaskKind::Http), 8);
    assert_eq!(segments(Some(0), TaskKind::Http), 1);
    assert_eq!(segments(Some(65), TaskKind::Http), 64);
    assert_eq!(segments(Some(65), TaskKind::Video), 1);
    let rec = m.add_task("u".into(), AddTaskOptions { filename: Some("a/b".into()), ..opts() }, 5);
    assert_eq!((rec.url.as_str(), rec.created_at, rec.state), ("u", 5, TaskState::Queued));
    assert_eq!(rec.filename.as_deref(), Some("a/b"));
    assert_eq!(rec.collection, None);
    let id: Vec<char> = rec.id.chars().collect();
    assert_eq!((id[8], id[13], id[14], id[18], id[23]), ('-', '-', '4', '-', '-'));
    assert!(['8', '9', 'a', 'b'].contains(&id[19]));
    assert!(rec.id.chars().all(|c| c == '-' || c.is_ascii_digit() || ('a'..='f').contains(&c)));
}

#[test]
fn settings_and_shutdown() {
    let mut w = World::new(limited(1));
    let cfg = w.m.config();
    assert_eq!((cfg.max_concurrent, cfg.default_segments, cfg.video_sub_langs.as_str()), (1, 8, "zh-Hans,en"));
    assert!(cfg.auto_resume_on_start && !cfg.video_audio_only && cfg.cookie_file.is_none());
    w.add(opts());
    let b = w.add(opts());
    let limit = w.m.set_config(ManagerConfig { global_speed_limit: Some(9), ..limited(2) });
    assert_eq!(limit, Some(9));
    w.schedule();
    assert_eq!(w.state(&b), TaskState::Running);
    let c = w.add(opts());
    w.m.shutdown();
    assert!(w.m.queued().is_empty());
    assert!(!w.m.has_handle(&b));
    w.m.enqueue(&c);
    w.schedule();
    assert_eq!(w.state(&c), TaskState::Queued);
}

#[test]
fn refused_task_fails() {
    let mut m = TaskManager::new(limited(1));
    let rec = m.add_task("u".into(), opts(), 0);
    m.enqueue(&rec.id);
    let ls = m.try_schedule(&vec![rec.clone()]);
    assert_eq!((ls.len(), m.active()), (1, 1));
    match m.on_submitted(&rec.id, Err(SparklingError::Other("HttpEngine 收到非 HTTP 任务".into()))) {
        TaskEvent::State { state, error, .. } => {
            assert_eq!(state, TaskState::Failed);
            assert_eq!(error.as_deref(), Some("HttpEngine 收到非 HTTP 任务"));
        }
        _ => panic!("expected a notice"),
    }
    assert_eq!(m.active(), 0);
    assert!(!m.has_handle(&rec.id));
}

#[test]
fn gone_and_finished_tasks_are_dropped() {
    let mut m = TaskManager::new(limited(2));
    for id in ["gone", "done", "off", "fine"] {
        m.enqueue(&id.to_string());
    }
    let store = vec![
        stored("done", TaskState::Completed, TaskKind::Http),
        stored("fine", TaskState::Queued, TaskKind::Http),
        stored("off", TaskState::Cancelled, TaskKind::Http),
    ];
    let ls = m.try_schedule(&store);
    assert_eq!(ls.len(), 1);
    assert_eq!(ls[0].id, "fine");
    assert_eq!(ls[0].spec.filename.as_deref(), Some("file.bin"));
    assert!(m.queued().is_empty());
}

#[test]
fn progress_events() {
    let mut w = World::new(ManagerConfig::default());
    let id = w.add(opts());
    let mut snap = initial_snapshot(None);
    snap.downloaded = 3;
    snap.total = 9;
    snap.speed = 2;
    snap.merging = true;
    let step = w.report(&id, snap);
    assert!(step.change.is_none() && !step.schedule && !step.stop && step.filename.is_none());
    assert!(matches!(
        step.progress,
        TaskEvent::Progress { downloaded: 3, total: 9, speed: 2, merging: true, .. }
    ));
}
