use sparkling_core::control_file::{self, load, path_for, tmp_path_for, ControlFile, LoadFault, SaveStep};
use sparkling_core::disk::{check_space, required_space};
use sparkling_core::http_engine::{Delay, RetryPolicy};
use sparkling_core::http_engine::retry::{RetryCount, RetryStep};
use sparkling_core::segment::{split, take_over, Segment};
use sparkling_core::task::{TaskKind, TaskState};
use sparkling_core::SparklingError;

// Errors

#[test]
fn user_message_is_chinese_and_readable() {
    let e = SparklingError::InsufficientDisk {
        required: 1000,
        available: 500,
    };
    assert!(e.user_message().contains("磁盘空间不足"));
    assert!(e.user_message().contains("1000"));
}

#[test]
fn technical_keeps_debug_detail() {
    let e = SparklingError::HttpStatus {
        status: 503,
        detail: "unavailable".into(),
    };
    assert!(e.technical().contains("503"));
    assert!(e.technical().contains("HttpStatus"));
}

#[test]
fn remote_changed_and_checksum_have_distinct_messages() {
    let e = SparklingError::RemoteChanged("etag".into());
    assert!(e.user_message().contains("已变化"));
    let e = SparklingError::ChecksumMismatch {
        expected: "a".into(),
        actual: "b".into(),
    };
    assert!(e.user_message().contains("校验"));
}

fn every_error() -> Vec<SparklingError> {
    vec![
        SparklingError::Network("a\"b".into()),
        SparklingError::HttpStatus { status: 404, detail: "x\ny".into() },
        SparklingError::InsufficientDisk { required: 0, available: u64::MAX },
        SparklingError::CorruptControlFile("坏".into()),
        SparklingError::RemoteChanged("".into()),
        SparklingError::DiskWrite("满".into()),
        SparklingError::ChecksumMismatch { expected: "e".into(), actual: "a\\".into() },
        SparklingError::TaskNotFound("id".into()),
        SparklingError::Other("其它".into()),
    ]
}

#[test]
fn technical_is_the_debug_form() {
    for e in every_error() {
        assert_eq!(e.technical(), format!("{e:?}"));
    }
}

#[test]
fn messages_are_exact() {
    let got: Vec<String> = every_error().iter().map(|e| e.user_message()).collect();
    assert_eq!(
        got,
        vec![
            "网络错误: a\"b",
            "服务器返回 404: x\ny",
            "磁盘空间不足: 需要 0 字节, 剩余 18446744073709551615 字节",
            "控制文件损坏: 坏",
            "远端文件已变化: ",
            "磁盘写入失败: 满",
            "完整性校验失败: 期望 e, 实际 a\\",
            "任务不存在: id",
            "其它",
        ]
    );
}

// Tasks

#[test]
fn legal_transitions() {
    let legal = [
        (TaskState::Queued, TaskState::Running),
        (TaskState::Queued, TaskState::Cancelled),
        (TaskState::Running, TaskState::Paused),
        (TaskState::Running, TaskState::Completed),
        (TaskState::Running, TaskState::Failed),
        (TaskState::Running, TaskState::Cancelled),
        (TaskState::Paused, TaskState::Queued),
        (TaskState::Paused, TaskState::Cancelled),
        (TaskState::Paused, TaskState::Failed),
        (TaskState::Failed, TaskState::Queued),
        (TaskState::Failed, TaskState::Cancelled),
    ];
    for (from, to) in legal {
        assert!(from.can_transition_to(to), "{from:?} -> {to:?} 应合法");
    }
}

#[test]
fn illegal_transitions() {
    let illegal = [
        (TaskState::Completed, TaskState::Running),
        (TaskState::Completed, TaskState::Queued),
        (TaskState::Completed, TaskState::Failed),
        (TaskState::Cancelled, TaskState::Running),
        (TaskState::Cancelled, TaskState::Queued),
        (TaskState::Queued, TaskState::Completed),
        (TaskState::Queued, TaskState::Failed),
        (TaskState::Queued, TaskState::Paused),
        (TaskState::Failed, TaskState::Running),
        (TaskState::Failed, TaskState::Completed),
    ];
    for (from, to) in illegal {
        assert!(!from.can_transition_to(to), "{from:?} -> {to:?} 应非法");
    }
}

#[test]
fn str_roundtrip() {
    for s in [
        TaskState::Queued,
        TaskState::Running,
        TaskState::Paused,
        TaskState::Completed,
        TaskState::Failed,
        TaskState::Cancelled,
    ] {
        assert_eq!(TaskState::parse(s.as_str()), Some(s));
    }
    assert_eq!(TaskState::parse("bogus"), None);
}

#[test]
fn task_kind_roundtrip() {
    assert_eq!(TaskKind::Http.as_str(), "http");
    assert_eq!(TaskKind::Video.as_str(), "video");
    assert_eq!(TaskKind::parse("http"), Some(TaskKind::Http));
    assert_eq!(TaskKind::parse("video"), Some(TaskKind::Video));
    assert_eq!(TaskKind::parse("bogus"), None);
    assert_eq!(
        serde_json::to_string(TaskKind::Video.as_str()).unwrap(),
        "\"video\""
    );
}

// Segments

#[test]
fn split_normal() {
    let segs = split(100, 8);
    assert_eq!(segs.len(), 8);
    let lens: Vec<u64> = segs.iter().map(|s| s.len()).collect();
    assert_eq!(lens, vec![13, 13, 13, 13, 12, 12, 12, 12]);
    assert_eq!(segs[0].start, 0);
    assert_eq!(segs[0].end, 12);
    assert_eq!(segs[7].end, 99);
    for w in segs.windows(2) {
        assert_eq!(w[0].end + 1, w[1].start);
    }
    for s in &segs {
        assert_eq!(s.downloaded, 0);
    }
}

#[test]
fn split_fewer_bytes_than_segments() {
    let segs = split(3, 8);
    assert_eq!(segs.len(), 3);
    assert!(segs.iter().all(|s| s.len() == 1));
}

#[test]
fn split_exact() {
    let segs = split(8, 8);
    assert_eq!(segs.len(), 8);
    assert!(segs.iter().all(|s| s.len() == 1));
}

#[test]
fn split_zero_and_guard() {
    assert!(split(0, 8).is_empty());
    let segs = split(100, 0);
    assert_eq!(segs.len(), 1);
    assert_eq!(segs[0].len(), 100);
}

#[test]
fn split_huge() {
    let segs = split(u64::MAX, 8);
    assert_eq!(segs.len(), 8);
    assert_eq!(segs[0].start, 0);
    assert_eq!(segs[7].end, u64::MAX - 1);
    let total: u128 = segs.iter().map(|s| s.len() as u128).sum();
    assert_eq!(total, u64::MAX as u128);
}

#[test]
fn take_over_splits_remaining_in_half() {
    let mut seg = Segment { index: 0, start: 0, end: 99, downloaded: 10 };
    let stolen = take_over(&mut seg, 8).unwrap();
    assert_eq!(stolen.index, 8);
    assert_eq!(stolen.start, 55);
    assert_eq!(stolen.end, 99);
    assert_eq!(stolen.downloaded, 0);
    assert_eq!(seg.end, 54);
    assert_eq!(seg.downloaded, 10);
    assert_eq!(seg.remaining() + stolen.remaining(), 90);
}

#[test]
fn take_over_refuses_tiny_remaining() {
    let mut seg = Segment { index: 0, start: 0, end: 10, downloaded: 11 };
    assert!(take_over(&mut seg, 1).is_none());
    let mut seg = Segment { index: 0, start: 0, end: 10, downloaded: 10 };
    assert!(take_over(&mut seg, 1).is_none());
}

#[test]
fn segment_offsets() {
    let s = Segment { index: 2, start: 5, end: 9, downloaded: 3 };
    assert_eq!(s.len(), 5);
    assert!(!s.is_empty());
    assert_eq!(s.remaining(), 2);
    assert_eq!(s.next_offset(), 8);
}

// Retries

#[test]
fn backoff_math() {
    let rp = RetryPolicy::default();
    assert_eq!(rp.backoff(1), Delay::from_secs(1));
    assert_eq!(rp.backoff(2), Delay::from_secs(2));
    assert_eq!(rp.backoff(3), Delay::from_secs(4));
    assert_eq!(rp.backoff(10), Delay::from_secs(30));
}

#[test]
fn backoff_limits() {
    let fast = RetryPolicy::fast();
    assert_eq!(fast.backoff(1), Delay::from_millis(10));
    assert_eq!(fast.backoff(3), Delay::from_millis(40));
    assert_eq!(fast.backoff(4), Delay::from_millis(50));
    assert_eq!(fast.backoff(u32::MAX), Delay::from_millis(50));
    let flat = RetryPolicy { max_retries: 1, initial: Delay::from_secs(9), max: Delay::from_secs(4) };
    assert_eq!(flat.backoff(1), Delay::from_secs(4));
    let huge = RetryPolicy {
        max_retries: 1,
        initial: Delay { nanos: u128::MAX / 2 },
        max: Delay { nanos: u128::MAX },
    };
    assert_eq!(huge.backoff(31), Delay { nanos: u128::MAX });
}

#[test]
fn delays_grow_to_the_limit() {
    let policy = RetryPolicy::default();
    for attempt in 1..100 {
        assert!(policy.backoff(attempt).nanos <= policy.backoff(attempt + 1).nanos);
        assert!(policy.backoff(attempt).nanos <= policy.max.nanos);
    }
}

#[test]
fn retries_are_counted() {
    let policy = RetryPolicy { max_retries: 2, initial: Delay::from_secs(1), max: Delay::from_secs(30) };
    let mut count = RetryCount::new();
    let e = || SparklingError::Network("x".into());
    assert!(matches!(count.on_failure(&policy, e()), RetryStep::Again(d) if d == Delay::from_secs(1)));
    assert!(matches!(count.on_failure(&policy, e()), RetryStep::Again(d) if d == Delay::from_secs(2)));
    assert!(matches!(count.on_failure(&policy, e()), RetryStep::GiveUp(SparklingError::Network(_))));
}

// Disk space

#[test]
fn required_space_is_102_percent() {
    assert_eq!(required_space(1000), 1020);
    assert_eq!(required_space(0), 0);
}

#[test]
fn insufficient_space_detected() {
    let free = fs2::available_space(".").map_err(|e| e.to_string());
    let err = check_space(free, u64::MAX / 2).unwrap_err();
    assert!(matches!(
        err,
        SparklingError::InsufficientDisk { .. }
    ));
}

#[test]
fn enough_space_ok() {
    let free = fs2::available_space(".").map_err(|e| e.to_string());
    assert!(check_space(free, 0).is_ok());
}

#[test]
fn unknown_space_is_a_disk_error() {
    let err = check_space(Err("权限不足".into()), 1).unwrap_err();
    assert_eq!(err.user_message(), "磁盘写入失败: 无法查询磁盘剩余空间: 权限不足");
    assert!(check_space(Ok(10), 10).is_ok());
    assert!(check_space(Ok(9), 10).is_err());
}

// Control files

fn sample() -> ControlFile {
    ControlFile {
        url: "http://example.com/a.bin".into(),
        etag: Some("\"v1\"".into()),
        last_modified: None,
        total_size: 100,
        supports_range: true,
        filename: "a.bin".into(),
        segments: split(100, 8),
    }
}

#[test]
fn sound_control_file_is_taken() {
    let cf = load(Ok(sample())).unwrap();
    assert_eq!(cf.segments, sample().segments);
    assert_eq!(cf.url, "http://example.com/a.bin");
}

#[test]
fn truncated_file_is_corrupt() {
    let half = "{\"url\":\"http://example.com/a.bin\",\"eta";
    let why = serde_json::from_str::<serde_json::Value>(half).unwrap_err().to_string();
    let err = load(Err(LoadFault::Parse(why))).unwrap_err();
    assert!(matches!(
        err,
        SparklingError::CorruptControlFile(_)
    ));
}

#[test]
fn bad_invariant_is_corrupt() {
    let mut cf = sample();
    cf.segments[0].downloaded = cf.segments[0].len() + 1;
    let err = load(Ok(cf)).unwrap_err();
    assert_eq!(
        err.user_message(),
        "控制文件损坏: 分片 0 不变量破坏: downloaded=14 len=13"
    );
    assert!(matches!(
        err,
        SparklingError::CorruptControlFile(_)
    ));
}

#[test]
fn missing_file_is_corrupt() {
    let err = load(Err(LoadFault::Read("not found".into()))).unwrap_err();
    assert_eq!(err.user_message(), "控制文件损坏: 读取失败: not found");
    assert!(matches!(
        err,
        SparklingError::CorruptControlFile(_)
    ));
}

#[test]
fn inverted_segment_is_corrupt_not_panic() {
    let mut cf = sample();
    cf.segments[0] = Segment {
        index: 0,
        start: 10,
        end: 5,
        downloaded: 0,
    };
    let err = load(Ok(cf)).unwrap_err();
    assert_eq!(
        err.user_message(),
        "控制文件损坏: 分片 0 不变量破坏: downloaded=0 len=1"
    );
    assert!(matches!(
        err,
        SparklingError::CorruptControlFile(_)
    ));
}

#[test]
fn control_file_paths_and_errors() {
    assert_eq!(path_for("dl/a.bin"), "dl/a.bin.sparkling");
    assert_eq!(tmp_path_for("dl/a.bin.sparkling"), "dl/a.bin.sparkling.tmp");
    let text = |s| control_file::save_error(s, "x").user_message();
    assert_eq!(text(SaveStep::Serialize), "磁盘写入失败: 控制文件序列化失败: x");
    assert_eq!(text(SaveStep::Write), "磁盘写入失败: 控制文件写入失败: x");
    assert_eq!(text(SaveStep::Rename), "磁盘写入失败: 控制文件落盘失败: x");
}
