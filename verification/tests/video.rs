use sparkling_core::engine::{initial_snapshot, submit_video, ControlMsg};
use sparkling_core::http_engine::Delay;
use sparkling_core::task::{TaskKind, TaskSpec, TaskState, VideoParams};
use sparkling_core::video::bin::{
    check_download, install_error, parse_version, resolve_ytdlp, updated_path, version_gt,
    ytdlp_status, ytdlp_version, Fetched, InstallStep,
};
use sparkling_core::video::engine::{
    apply_line, build_args, build_args_for, cleanup_partial, extract_error, failure_message,
    is_fragment_name, is_leftover, VideoPhase, VideoStep, VideoTask,
};
use sparkling_core::video::number::parse_double;
use sparkling_core::video::probe::{parse_info_json, RawEntry, RawFormat, RawInfo};
use sparkling_core::video::progress::{is_merge_line, parse_na, parse_progress_line};
use sparkling_core::video::runner::{
    lost_run, tail_utf8, ChildEvent, ChildStep, ChildWatch, ScriptAction, ScriptRun,
};
use sparkling_core::video::service::{
    check_probe, cookie_args, find_binary, import_cookies, probe_args, requested_kind, Candidate,
    ProbeRun,
};
use sparkling_core::video::{FakeRunner, KillReason, RunResult, ScriptStep, TokioChildRunner, VideoService};
use sparkling_core::SparklingError;

fn video_spec(save_dir: &str) -> TaskSpec {
    TaskSpec {
        url: "https://www.youtube.com/watch?v=test".into(),
        save_dir: save_dir.into(),
        filename: Some("测试视频".into()),
        segments: 1,
        max_speed: None,
        kind: TaskKind::Video,
        video: Some(VideoParams {
            format: "bv*[height<=1080]+ba/b".into(),
            subtitles: vec!["zh-Hans".into()],
            auto_subs: true,
        }),
    }
}

fn lines(v: &[&str]) -> ScriptStep {
    ScriptStep::Lines(v.iter().map(|s| s.to_string()).collect())
}

// Versions and installation

#[test]
fn parse_version_shapes() {
    assert_eq!(parse_version("2026.08.29"), Some((2026, 8, 29)));
    assert_eq!(parse_version("2026.8.9"), Some((2026, 8, 9)));
    assert_eq!(parse_version("2026.08.29.12345"), Some((2026, 8, 29)));
    assert_eq!(parse_version("bogus"), None);
    assert_eq!(parse_version(""), None);
    assert_eq!(parse_version(" 1.2.3\r\n"), Some((1, 2, 3)));
    assert_eq!(parse_version("1.2.4294967296"), None);
    assert_eq!(parse_version("1.2"), None);
}

#[test]
fn version_ordering() {
    assert!(version_gt("2026.09.01", "2026.08.29"));
    assert!(version_gt("2027.01.01", "2026.12.31"));
    assert!(!version_gt("2026.08.29", "2026.08.29"));
    assert!(!version_gt("bogus", "2026.08.29"), "解析失败按不更新处理");
    assert!(!version_gt("2026.09.01", "bogus"));
}

#[test]
fn resolve_prefers_app_data_binary() {
    let updated = updated_path("data/bin");
    let expected = std::path::Path::new("data/bin").join("yt-dlp.exe").display().to_string();
    assert_eq!(updated, expected);
    assert_eq!(resolve_ytdlp(&updated, true, "packed/yt-dlp.exe"), updated);
    assert_eq!(
        resolve_ytdlp(&updated, false, "packed/yt-dlp.exe"),
        "packed/yt-dlp.exe"
    );
}

#[test]
fn version_query() {
    assert_eq!(ytdlp_version(Ok((true, " 2026.08.29 \r\nmore".into()))).unwrap(), "2026.08.29");
    assert_eq!(ytdlp_version(Ok((true, String::new()))).unwrap(), "");
    assert_eq!(
        ytdlp_version(Ok((false, "x".into()))).unwrap_err().user_message(),
        "yt-dlp 版本查询失败"
    );
    assert_eq!(
        ytdlp_version(Err("没有".into())).unwrap_err().user_message(),
        "运行 yt-dlp 失败: 没有"
    );
}

#[test]
fn download_outcomes() {
    let text = |g| check_download("u", g).unwrap_err().user_message();
    assert_eq!(text(Fetched::NoClient("x".into())), "构建 HTTP 客户端失败: x");
    assert_eq!(text(Fetched::NoResponse("x".into())), "网络错误: 下载失败: x");
    assert_eq!(
        text(Fetched::Response { status: 404, body: Ok(3) }),
        "服务器返回 404: 下载 u 失败"
    );
    assert_eq!(
        text(Fetched::Response { status: 200, body: Err("x".into()) }),
        "网络错误: 读取响应失败: x"
    );
    assert_eq!(text(Fetched::Response { status: 200, body: Ok(0) }), "下载内容为空");
    assert!(check_download("u", Fetched::Response { status: 200, body: Ok(8) }).is_ok());
    let text = |s| install_error(s, "x").user_message();
    assert_eq!(text(InstallStep::CreateDir), "磁盘写入失败: 创建目录失败: x");
    assert_eq!(text(InstallStep::Write), "磁盘写入失败: 写入临时文件失败: x");
    assert_eq!(text(InstallStep::Replace), "磁盘写入失败: 替换二进制失败: x");
}

#[test]
fn status_names_the_source() {
    let s = ytdlp_status(Ok("1.2.3".into()), true, true, true);
    assert_eq!((s.version.as_deref(), s.source.as_str(), s.ffmpeg_available), (Some("1.2.3"), "app-data", true));
    let s = ytdlp_status(Ok("1.2.3".into()), true, false, false);
    assert_eq!(s.source, "bundled");
    let s = ytdlp_status(Err(SparklingError::Other("x".into())), false, false, false);
    assert_eq!((s.version, s.source.as_str()), (None, "missing"));
}

// Command lines

#[test]
fn build_args_contains_required_flags() {
    let spec = video_spec("D:\\dl");
    let args = build_args(&spec, Some("ff/ffmpeg.exe"), None, Some(1024));
    let joined = args.join(" ");
    assert!(args
        .windows(2)
        .any(|w| w[0] == "-f" && w[1] == "bv*[height<=1080]+ba/b"));
    assert!(args.contains(&"-c".to_string()), "断点续传 -c 必须在");
    assert!(args.contains(&"--newline".to_string()));
    assert!(args.contains(&"--no-mtime".to_string()));
    assert!(joined.contains("--progress-template"));
    assert!(joined.contains("SPARKLING|%(progress.downloaded_bytes)s"));
    assert!(args
        .windows(2)
        .any(|w| w[0] == "--ffmpeg-location" && w[1] == "ff/ffmpeg.exe"));
    assert!(args.windows(2).any(|w| w[0] == "-r" && w[1] == "1K"));
    assert!(args
        .windows(2)
        .any(|w| w[0] == "--sub-langs" && w[1] == "zh-Hans"));
    assert!(args.contains(&"--write-subs".to_string()));
    assert!(args.contains(&"--write-auto-subs".to_string()));
    let out = std::path::Path::new("D:\\dl").join("测试视频.%(ext)s").display().to_string();
    assert!(args.windows(2).any(|w| w[0] == "-o" && w[1] == out));
    assert_eq!(args.last().unwrap(), "https://www.youtube.com/watch?v=test");
}

#[test]
fn build_args_none_filename_uses_title_template() {
    let mut spec = video_spec("D:\\dl");
    spec.filename = None;
    let args = build_args(&spec, None, None, None);
    let title = "%(title).200B [%(id)s].%(ext)s";
    let out = std::path::Path::new("D:\\dl").join(title).display().to_string();
    assert!(
        args.windows(2)
            .any(|w| w[0] == "-o" && w[1].ends_with(title) && w[1] == out),
        "filename 未指定时 -o 应以标题模板结尾：{:?}",
        args
    );
}

#[test]
fn build_args_omits_optional_when_none() {
    let mut spec = video_spec("D:\\dl");
    if let Some(v) = spec.video.as_mut() {
        v.subtitles.clear();
        v.auto_subs = false;
    }
    let args = build_args(&spec, None, None, None);
    let joined = args.join(" ");
    assert!(!joined.contains("--ffmpeg-location"));
    assert!(!joined.contains("--cookies"));
    assert!(!args.contains(&"-r".to_string()));
    assert!(!args.contains(&"--write-subs".to_string()));
    assert!(!args.contains(&"--write-auto-subs".to_string()));
    assert!(!args.contains(&"--sub-langs".to_string()));
}

#[test]
fn build_args_passes_cookie_file() {
    let spec = video_spec("D:\\dl");
    let args = build_args(&spec, None, Some("data/cookies.txt"), None);
    assert!(args
        .windows(2)
        .any(|w| w[0] == "--cookies" && w[1] == "data/cookies.txt"));
}

#[test]
fn own_limit_of_a_task_is_passed() {
    let limit = |own, global| {
        let mut spec = video_spec("dl");
        spec.max_speed = own;
        let args = build_args(&spec, None, None, global);
        args.windows(2).find(|w| w[0] == "-r").map(|w| w[1].clone())
    };
    assert_eq!(limit(Some(2097152), None).as_deref(), Some("2048K"));
    assert_eq!(limit(None, Some(2097152)).as_deref(), Some("2048K"));
    assert_eq!(limit(Some(1024), Some(4096)).as_deref(), Some("1K"));
    assert_eq!(limit(Some(4096), Some(1024)).as_deref(), Some("1K"));
    assert_eq!(limit(None, None), None);
}

#[test]
fn whole_command_line() {
    let mut spec = video_spec("dl");
    spec.video.as_mut().unwrap().subtitles.push("en".into());
    let args = build_args_for(&spec, "OUT", Some("ff"), Some("ck"), Some(2_097_151));
    assert_eq!(
        args,
        vec![
            "-f", "bv*[height<=1080]+ba/b", "-c", "--newline", "--no-mtime", "--retries", "10",
            "--progress-template",
            "download:SPARKLING|%(progress.downloaded_bytes)s|%(progress.total_bytes)s|%(progress.total_bytes_estimate)s|%(progress.speed)s",
            "-o", "OUT", "--ffmpeg-location", "ff", "--cookies", "ck", "-r", "2047K",
            "--write-subs", "--sub-langs", "zh-Hans,en", "--write-auto-subs",
            "https://www.youtube.com/watch?v=test",
        ]
    );
}

// Error output

#[test]
fn extract_error_takes_last_error_line() {
    let stderr = "WARNING: something\nERROR: Unsupported URL\nERROR: Video unavailable";
    assert_eq!(extract_error(stderr), "Video unavailable");
    assert_eq!(extract_error("no error lines"), "no error lines");
    let long = "x".repeat(500);
    assert!(extract_error(&long).len() <= 200);
}

#[test]
fn error_line_shapes() {
    assert_eq!(extract_error("ERRORERROR::: a: b \r\nx\n"), "a: b");
    assert_eq!(extract_error("ERROR:\r\n"), "");
    assert_eq!(extract_error(" ERROR: x"), "ERROR: x");
    assert_eq!(extract_error(" \n\t "), "");
    let long: String = (0..300).map(|i| char::from(b'a' + (i % 26) as u8)).collect();
    assert_eq!(extract_error(&long), long[100..]);
    assert_eq!(extract_error(&"é".repeat(201)), "é".repeat(200));
}

#[test]
fn failure_messages() {
    let res = |code, tail: &str| RunResult { killed: None, code, stderr_tail: tail.into() };
    assert_eq!(failure_message(&res(Some(1), "")), "yt-dlp 退出码 1");
    assert_eq!(failure_message(&res(Some(-7), " ")), "yt-dlp 退出码 -7");
    assert_eq!(failure_message(&res(Some(i32::MIN), "")), "yt-dlp 退出码 -2147483648");
    assert_eq!(failure_message(&res(None, "")), "yt-dlp 退出码 未知");
    assert_eq!(failure_message(&res(Some(1), "ERROR: bad")), "bad");
}

#[test]
fn tail_keeps_whole_characters() {
    assert_eq!(tail_utf8("abc", 3), "abc");
    assert_eq!(tail_utf8("abcd", 3), "bcd");
    assert_eq!(tail_utf8("a中文", 5), "文");
    assert_eq!(tail_utf8("a中文", 6), "中文");
    assert_eq!(tail_utf8("😀é", 5), "é");
    assert_eq!(tail_utf8("中", 0), "");
    assert_eq!(tail_utf8("", 4), "");
}

// Leftovers

const KEPT: [&str; 4] = ["测试视频.f4v", "测试视频.f137", "测试视频.final.mp4", "无关文件.txt"];
const DELETED: [&str; 6] = [
    "测试视频.mp4.part",
    "测试视频.f137.mp4",
    "测试视频.f137.mp4.part",
    "测试视频.mp4.ytdl",
    "测试视频.part",
    "测试视频.ytdl",
];

#[test]
fn cleanup_partial_fragment_heuristic_is_structural() {
    for name in DELETED {
        assert!(is_leftover(name, "测试视频"), "{name} 应被清理");
    }
    for name in KEPT {
        assert!(!is_leftover(name, "测试视频"), "{name} 不得误删");
    }
    let names: Vec<String> = KEPT.iter().chain(DELETED.iter()).map(|s| s.to_string()).collect();
    assert_eq!(cleanup_partial(&names, "测试视频"), vec![4, 5, 6, 7, 8, 9]);
    let short: Vec<String> = ["v.part", "v.ytdl", "v.mp4", "part", "v"].iter().map(|s| s.to_string()).collect();
    assert_eq!(cleanup_partial(&short, "v"), vec![0, 1]);
    let frag = |s: &str| is_fragment_name(&s.chars().collect::<Vec<char>>());
    assert!(frag("f1.m4a"));
    assert!(frag("f1.tar.gz"));
    assert!(!frag("f.mp4"));
    assert!(!frag("f1."));
    assert!(!frag("f1.part"));
    assert!(!frag("g1.mp4"));
    assert!(!frag(""));
}

// Progress

#[test]
fn parses_full_line() {
    let p = parse_progress_line("SPARKLING|123456|2000000|2000000|234567.8").unwrap();
    assert_eq!(p.downloaded, 123456);
    assert_eq!(p.total, Some(2000000));
    assert_eq!(p.speed, Some(234567));
}

#[test]
fn total_falls_back_to_estimate() {
    let p = parse_progress_line("SPARKLING|123456|NA|2000000|NA").unwrap();
    assert_eq!(p.total, Some(2000000));
    assert_eq!(p.speed, None);
}

#[test]
fn all_na_total_is_none() {
    let p = parse_progress_line("SPARKLING|123456|NA|NA|100.5").unwrap();
    assert_eq!(p.total, None);
    assert_eq!(p.speed, Some(100));
}

#[test]
fn ignores_non_progress_lines() {
    assert!(parse_progress_line("[download] Destination: a.mp4").is_none());
    assert!(parse_progress_line("[Merger] Merging formats").is_none());
    assert!(parse_progress_line("").is_none());
    assert!(parse_progress_line("OTHER|1|2|3|4").is_none());
}

#[test]
fn progress_line_shapes() {
    assert!(parse_progress_line("SPARKLING|1|2|3").is_none());
    assert!(parse_progress_line("SPARKLING|1.5|2|3|4").is_none());
    assert!(parse_progress_line("SPARKLING|NA|2|3|4").is_none());
    let p = parse_progress_line("  SPARKLING| 7 | 8 | x | |extra\r").unwrap();
    assert_eq!((p.downloaded, p.total, p.speed), (7, Some(8), None));
}

#[test]
fn merge_line_detection() {
    assert!(is_merge_line("[Merger] Merging formats into \"x.mp4\""));
    assert!(is_merge_line("[ExtractAudio] Destination: x.m4a"));
    assert!(!is_merge_line("[download] 100% of 10.00MiB"));
    assert!(!is_merge_line("SPARKLING|1|2|3|4"));
}

fn number(s: &str) -> Option<u64> {
    parse_double(&s.chars().collect::<Vec<char>>())
}

/// The same by way of the machine's floating-point numbers.
fn by_float(s: &str) -> Option<u64> {
    s.parse::<f64>().ok().map(|v| v as u64)
}

#[test]
fn numbers_are_read_as_doubles() {
    for s in [
        "0", "-0", "+5", "5.", ".5", ".", "", "+", "-", "e5", "1e", "1e+", "1e-5", "1E3", "1.5e3",
        "1_0", " 1", "1 ", "0x10", "inf", "-inf", "+Infinity", "INFINITY", "infinit", "nan", "-NaN",
        "nano", "1e400", "-1e400", "1e-400", "0e999999999999999999999999999999999999999",
        "1e999999999999999999999999999999999999999", "1e-999999999999999999999999999999999999999",
        "0.1e1", "12.5e-1", "00012", "1..2", "1.2.3", "1e2e3", "1e2.5", "--1", "+-1", "１",
        "18446744073709551615", "18446744073709551616", "18446744073709550591",
        "18446744073709550592", "18446744073709550593", "9007199254740991", "9007199254740992",
        "9007199254740993", "9007199254740994", "9007199254740995", "9007199254740993.00001",
        "4503599627370496.5", "4503599627370497.5", "4503599627370497.49999999999999999",
        "4503599627370495.5", "4503599627370495.75", "4503599627370495.7499999999999999999",
        "0.99999999999999994448884876874217297882",
        "0.999999999999999944488848768742172978818416595458984375",
        "0.99999999999999994448884876874217297881841659545898437499999",
        "1.9999999999999998889776975374843459576368331909179687",
        "1.99999999999999988897769753748434595763683319091796875",
        "3.9999999999999997779553950749686919152736663818359374",
        "3.9999999999999997779553950749686919152736663818359375",
        "100.99999999999999", "100.999999999999999", "123456.999999999999", "123456.9999999999999",
        "99999999999999999999", "100000000000000000000", "1e19", "1.8446744073709551615e19",
        "0.00000000000000000001e39", "123e-2", "299e-2", "2.9999999999999999999999999999",
    ] {
        assert_eq!(number(s), by_float(s), "{s}");
    }
}

#[test]
fn random_numbers_are_read_as_doubles() {
    let mut x: u64 = 88172645463325252;
    let mut next = || {
        x ^= x << 13;
        x ^= x >> 7;
        x ^= x << 17;
        x
    };
    for _ in 0..3000 {
        let whole = next() >> (next() % 64);
        let places = (next() % 40) as usize;
        let frac: String = (0..places)
            .map(|i| {
                let d = if i < 12 && next() % 2 == 0 { 9 } else { next() % 10 };
                char::from(b'0' + d as u8)
            })
            .collect();
        let exp = (next() % 50) as i64 - 25;
        for s in [
            format!("{whole}.{frac}"),
            format!("{whole}.{frac}e{exp}"),
            format!("{whole}.999999999999999{frac}"),
        ] {
            assert_eq!(number(&s), by_float(&s), "{s}");
        }
    }
}

#[test]
fn fields_without_a_number() {
    let field = |s: &str| parse_na(&s.chars().collect::<Vec<char>>());
    assert_eq!(field("NA"), None);
    assert_eq!(field(" NA "), None);
    assert_eq!(field(""), None);
    assert_eq!(field("na"), None);
    assert_eq!(field("-3.7"), Some(0));
    assert_eq!(field("\u{3000}12.9\t"), Some(12));
}

// Page information

/// The fields of yt-dlp's answer.
fn raw_info(json: &str) -> Result<RawInfo, String> {
    let v = serde_json::from_str::<serde_json::Value>(json).map_err(|e| e.to_string())?;
    let text = |v: &serde_json::Value, k: &str| v.get(k).and_then(|x| x.as_str()).map(|s| s.to_string());
    let seconds = |v: &serde_json::Value| v.get("duration").and_then(|x| x.as_f64()).map(|d| d as u64);
    let bits = |v: &serde_json::Value, k: &str| v.get(k).and_then(|x| x.as_f64()).map(|d| d.to_bits());
    let list = |k: &str| v.get(k).and_then(|x| x.as_array()).cloned().unwrap_or_default();
    Ok(RawInfo {
        kind: text(&v, "_type"),
        title: text(&v, "title"),
        duration: seconds(&v),
        thumbnail: text(&v, "thumbnail"),
        uploader: text(&v, "uploader"),
        webpage_url: text(&v, "webpage_url"),
        formats: list("formats")
            .iter()
            .map(|f| RawFormat {
                format_id: text(f, "format_id"),
                ext: text(f, "ext"),
                height: f.get("height").and_then(|x| x.as_u64()).map(|h| h as u32),
                fps: bits(f, "fps"),
                vcodec: text(f, "vcodec"),
                acodec: text(f, "acodec"),
                filesize: f.get("filesize").and_then(|x| x.as_u64()),
                tbr: bits(f, "tbr"),
            })
            .collect(),
        entries: list("entries")
            .iter()
            .map(|e| RawEntry {
                id: text(e, "id"),
                title: text(e, "title"),
                url: text(e, "url"),
                webpage_url: text(e, "webpage_url"),
                duration: seconds(e),
            })
            .collect(),
    })
}

const VIDEO_JSON: &str = r#"{
  "_type": "video",
  "id": "dQW4w9WgXcQ",
  "title": "测试视频 - 中文标题",
  "duration": 212.136,
  "thumbnail": "https://example.com/thumb.jpg",
  "uploader": "测试上传者",
  "webpage_url": "https://www.youtube.com/watch?v=dQW4w9WgXcQ",
  "formats": [
    { "format_id": "sb0", "ext": "mhtml", "height": 48, "vcodec": "vp9", "acodec": "none", "tbr": 20.5 },
    { "format_id": "140", "ext": "m4a", "acodec": "mp4a.40.2", "vcodec": "none", "filesize": 3440000, "tbr": 129.8 },
    { "format_id": "137", "ext": "mp4", "height": 1080, "fps": 25.0, "vcodec": "avc1.640028", "acodec": "none", "filesize": 45000000, "tbr": 2000.5 },
    { "format_id": "18", "ext": "mp4", "height": 360, "fps": 25.0, "vcodec": "avc1.42001E", "acodec": "mp4a.40.2", "filesize": 9000000, "tbr": 390.2 },
    { "format_id": "empty", "ext": "bin" }
  ]
}"#;

const PLAYLIST_JSON: &str = r#"{
  "_type": "playlist",
  "id": "PLtest",
  "title": "测试播放列表",
  "webpage_url": "https://www.youtube.com/playlist?list=PLtest",
  "entries": [
    { "id": "v1", "title": "第一集", "url": "https://www.youtube.com/watch?v=v1", "duration": 100.5 },
    { "id": "v2", "title": "第二集", "url": "https://www.youtube.com/watch?v=v2" },
    { "id": "bad", "title": "无URL条目" }
  ]
}"#;

#[test]
fn parses_single_video() {
    let info = parse_info_json(raw_info(VIDEO_JSON)).unwrap();
    assert_eq!(info.title, "测试视频 - 中文标题");
    assert_eq!(info.duration_sec, Some(212));
    assert_eq!(info.uploader.as_deref(), Some("测试上传者"));
    assert!(info.playlist.is_none());
    assert_eq!(info.formats.len(), 3);
    let f137 = info.formats.iter().find(|f| f.format_id == "137").unwrap();
    assert_eq!(f137.height, Some(1080));
    assert_eq!(f137.fps.map(f64::from_bits), Some(25.0));
    assert_eq!(f137.filesize, Some(45000000));
    assert_eq!(f137.acodec, "none");
    let f140 = info.formats.iter().find(|f| f.format_id == "140").unwrap();
    assert_eq!(f140.vcodec, "none");
}

#[test]
fn parses_playlist_and_skips_entry_without_url() {
    let info = parse_info_json(raw_info(PLAYLIST_JSON)).unwrap();
    let pl = info.playlist.expect("应识别为播放列表");
    assert_eq!(pl.len(), 2);
    assert_eq!(pl[0].title, "第一集");
    assert_eq!(pl[0].duration_sec, Some(100));
    assert_eq!(pl[1].url, "https://www.youtube.com/watch?v=v2");
}

#[test]
fn rejects_invalid_json() {
    let r = parse_info_json(raw_info("not json"));
    assert!(r.is_err());
    assert!(r.unwrap_err().user_message().starts_with("解析视频信息失败: "));
}

#[test]
fn missing_fields_are_filled_in() {
    let info = parse_info_json(raw_info("{\"formats\":[{\"vcodec\":\"h264\"}]}")).unwrap();
    assert_eq!(info.title, "未知标题");
    assert_eq!(info.formats[0].format_id, "");
    assert_eq!(info.formats[0].ext, "unknown");
    assert_eq!(info.formats[0].acodec, "none");
    let info = parse_info_json(raw_info("{\"_type\":\"playlist\"}")).unwrap();
    assert_eq!(info.playlist.unwrap().len(), 0);
    let info = parse_info_json(raw_info("{\"entries\":[{\"webpage_url\":\"w\",\"id\":\"i\"},{\"url\":\"u\"}]}")).unwrap();
    let pl = info.playlist.unwrap();
    assert_eq!((pl[0].url.as_str(), pl[0].title.as_str()), ("w", "i"));
    assert_eq!((pl[1].url.as_str(), pl[1].title.as_str()), ("u", ""));
}

// Runs

/// Plays a script to its end; `kill` comes during the first wait.
fn play(run: &mut ScriptRun, mut kill: Option<KillReason>) -> (Vec<String>, RunResult) {
    let mut out = vec![];
    let mut noticed = None;
    loop {
        match run.next(noticed, kill) {
            ScriptAction::Print(l) => out.extend(l),
            ScriptAction::Sleep(_) => noticed = kill.take(),
            ScriptAction::Done(r) => return (out, r),
        }
    }
}

#[test]
fn fake_runs_script_and_exits() {
    let mut r = FakeRunner::new();
    r.scripts.push(vec![lines(&["SPARKLING|100|200|200|50"]), ScriptStep::Exit(0)]);
    let mut run = r.start(&vec!["-J".into()]);
    let (out, res) = play(&mut run, None);
    assert_eq!(res.code, Some(0));
    assert!(res.killed.is_none());
    assert_eq!(out, vec!["SPARKLING|100|200|200|50".to_string()]);
    assert_eq!(r.calls[0], vec!["-J".to_string()]);
}

#[test]
fn fake_kill_during_delay_reports_killed() {
    let mut r = FakeRunner::new();
    r.scripts.push(vec![
        lines(&["SPARKLING|1|10|10|1"]),
        ScriptStep::Delay(Delay::from_secs(60)),
        ScriptStep::Exit(0),
    ]);
    let mut run = r.start(&vec![]);
    let (_, res) = play(&mut run, Some(KillReason::Pause));
    assert_eq!(res.killed, Some(KillReason::Pause));
    assert_eq!(res.code, None);
}

#[test]
fn fake_exit_code_propagates() {
    let mut r = FakeRunner::new();
    r.scripts.push(vec![ScriptStep::Exit(2)]);
    let (_, res) = play(&mut r.start(&vec![]), None);
    assert_eq!(res.code, Some(2));
    // Without a script a run ends at once; a kill that waits at the exit counts.
    let (_, res) = play(&mut r.start(&vec![]), None);
    assert_eq!((res.killed, res.code), (None, None));
    r.scripts.push(vec![ScriptStep::Exit(0)]);
    let (_, res) = play(&mut r.start(&vec![]), Some(KillReason::Cancel));
    assert_eq!((res.killed, res.code), (Some(KillReason::Cancel), None));
}

#[test]
fn child_is_watched() {
    let mut w = ChildWatch::new();
    assert_eq!(w.on_event(ChildEvent::Line), ChildStep::Forward);
    assert_eq!(w.on_event(ChildEvent::Ended), ChildStep::Reap);
    assert_eq!(w.finish(Some(3), "abc").code, Some(3));
    assert_eq!(w.on_event(ChildEvent::Kill(Some(KillReason::Cancel))), ChildStep::KillAndReap);
    let res = w.finish(None, &"é".repeat(3000));
    assert_eq!(res.killed, Some(KillReason::Cancel));
    assert_eq!(res.stderr_tail, "é".repeat(2048));
    assert_eq!(lost_run().stderr_tail, "runner 任务异常退出");
}

// The life of a task

/// Runs a task against scripts. `controls` are sent during the waits of the scripts and,
/// while the task is paused, one after the other. Gives every published state.
fn run_task(runner: &mut FakeRunner, spec: &TaskSpec, controls: Vec<ControlMsg>) -> (VideoTask, Vec<TaskState>, bool) {
    let (_, snap) = submit_video(spec).unwrap();
    let mut controls = controls.into_iter();
    let mut task = VideoTask::new(snap, spec.filename.clone());
    let mut states = vec![];
    'start: loop {
        let args = build_args(spec, Some("ffmpeg.exe"), None, None);
        let mut run = runner.start(&args);
        assert_eq!(task.on_started(Ok(())), VideoStep::Wait);
        let mut noticed = None;
        let step = loop {
            match run.next(noticed, None) {
                ScriptAction::Print(out) => {
                    for l in out {
                        assert_eq!(task.on_line(&l), VideoStep::Publish);
                        states.push(task.snapshot.state);
                    }
                }
                ScriptAction::Sleep(_) => {
                    if let Some(msg) = controls.next() {
                        if let VideoStep::Kill(why) = task.on_control(Some(msg)) {
                            noticed = Some(why);
                        }
                    }
                }
                ScriptAction::Done(res) => break task.on_exit(Some(res), &vec![]),
            }
        };
        states.push(task.snapshot.state);
        match step {
            VideoStep::End { cleanup } => return (task, states, cleanup),
            VideoStep::Publish => loop {
                match task.on_control(controls.next()) {
                    VideoStep::Restart => {
                        states.push(task.snapshot.state);
                        continue 'start;
                    }
                    VideoStep::End { cleanup } => {
                        states.push(task.snapshot.state);
                        return (task, states, cleanup);
                    }
                    _ => {}
                }
            },
            _ => unreachable!(),
        }
    }
}

#[test]
fn progress_never_regresses_across_format_streams() {
    let mut runner = FakeRunner::new();
    runner.scripts.push(vec![
        lines(&["SPARKLING|1000|1000|1000|500"]),
        lines(&["SPARKLING|10|300|300|100"]),
        lines(&["SPARKLING|300|300|300|100"]),
        lines(&["[Merger] Merging formats into \"x.mp4\""]),
        ScriptStep::Exit(0),
    ]);
    let (task, _, cleanup) = run_task(&mut runner, &video_spec("D:\\dl"), vec![]);
    assert_eq!(task.snapshot.state, TaskState::Completed);
    assert_eq!(task.snapshot.downloaded, 1000, "第二段流的 downloaded 不得回退到小值");
    assert_eq!(task.snapshot.total, 1000, "total 只增不减");
    assert!(task.snapshot.merging);
    assert!(!cleanup);
}

#[test]
fn completes_with_progress_lines() {
    let mut runner = FakeRunner::new();
    runner.scripts.push(vec![
        lines(&["SPARKLING|100|1000|1000|500"]),
        lines(&["SPARKLING|1000|1000|1000|500"]),
        lines(&["[Merger] Merging formats into \"x.mp4\""]),
        ScriptStep::Exit(0),
    ]);
    let (task, _, _) = run_task(&mut runner, &video_spec("D:\\dl"), vec![]);
    assert_eq!(task.snapshot.state, TaskState::Completed);
    assert_eq!(task.snapshot.downloaded, 1000);
    assert_eq!(task.snapshot.total, 1000);
    assert_eq!(task.snapshot.speed, 0);
    assert!(task.snapshot.merging, "合并行应置 merging");
    assert_eq!(task.snapshot.filename.as_deref(), Some("测试视频"));
}

#[test]
fn pause_kills_process_and_resume_restarts() {
    let mut runner = FakeRunner::new();
    runner.scripts.push(vec![
        lines(&["SPARKLING|100|1000|1000|500"]),
        ScriptStep::Delay(Delay::from_secs(60)),
    ]);
    runner.scripts.push(vec![lines(&["SPARKLING|1000|1000|1000|800"]), ScriptStep::Exit(0)]);
    let controls = vec![ControlMsg::Pause, ControlMsg::Pause, ControlMsg::Resume];
    let (task, states, _) = run_task(&mut runner, &video_spec("D:\\dl"), controls);
    assert_eq!(
        states,
        vec![
            TaskState::Running,
            TaskState::Paused,
            TaskState::Running,
            TaskState::Running,
            TaskState::Completed
        ]
    );
    assert_eq!(runner.calls.len(), 2, "暂停恢复应重启进程");
    for call in runner.calls.iter() {
        assert!(call.contains(&"-c".to_string()), "每次运行都要 -c 续传");
    }
    assert_eq!(task.snapshot.downloaded, 1000);
    assert!(!task.snapshot.merging, "重启后 merging 复位");
}

#[test]
fn cancel_cleans_partial_files() {
    let mut runner = FakeRunner::new();
    runner.scripts.push(vec![
        lines(&["SPARKLING|10|1000|1000|100"]),
        ScriptStep::Delay(Delay::from_secs(60)),
    ]);
    let (task, _, cleanup) = run_task(&mut runner, &video_spec("dl"), vec![ControlMsg::Cancel]);
    assert_eq!(task.snapshot.state, TaskState::Cancelled);
    assert_eq!(task.snapshot.speed, 0);
    assert!(cleanup);
    let names: Vec<String> = ["测试视频.mp4.part", "测试视频.f137.mp4", "无关文件.txt", "测试视频.f4v"]
        .iter()
        .map(|s| s.to_string())
        .collect();
    assert_eq!(cleanup_partial(&names, task.filename.as_deref().unwrap()), vec![0, 1]);
    // Without a name of its own a task cleans nothing.
    let mut spec = video_spec("dl");
    spec.filename = None;
    runner.scripts.push(vec![ScriptStep::Delay(Delay::from_secs(60))]);
    let (_, _, cleanup) = run_task(&mut runner, &spec, vec![ControlMsg::Cancel]);
    assert!(!cleanup);
}

#[test]
fn cancel_while_paused() {
    let mut runner = FakeRunner::new();
    runner.scripts.push(vec![ScriptStep::Delay(Delay::from_secs(60))]);
    let controls = vec![ControlMsg::Pause, ControlMsg::Cancel];
    let (task, states, cleanup) = run_task(&mut runner, &video_spec("dl"), controls);
    assert_eq!(states, vec![TaskState::Paused, TaskState::Cancelled]);
    assert_eq!(task.phase, VideoPhase::Ended);
    assert!(cleanup);
}

#[test]
fn nonzero_exit_fails_with_stderr_summary() {
    let mut runner = FakeRunner::new();
    runner.scripts.push(vec![ScriptStep::Exit(1)]);
    let (task, _, cleanup) = run_task(&mut runner, &video_spec("D:\\dl"), vec![]);
    assert_eq!(task.snapshot.state, TaskState::Failed);
    assert!(
        task.snapshot.error.unwrap().contains("yt-dlp 退出码 1"),
        "错误应含退出码"
    );
    assert!(!cleanup);
}

#[test]
fn lost_process_cancels() {
    let mut task = VideoTask::new(initial_snapshot(None), Some("v".into()));
    task.on_started(Ok(()));
    let rest = vec!["SPARKLING|9|10|10|1".to_string()];
    assert_eq!(task.on_exit(None, &rest), VideoStep::End { cleanup: true });
    assert_eq!(task.snapshot.state, TaskState::Cancelled);
    assert_eq!(task.snapshot.downloaded, 9);
}

#[test]
fn kill_counts_before_the_exit_code() {
    let mut task = VideoTask::new(initial_snapshot(None), None);
    task.on_started(Ok(()));
    let res = RunResult { killed: Some(KillReason::Cancel), code: Some(0), stderr_tail: String::new() };
    assert_eq!(task.on_exit(Some(res), &vec![]), VideoStep::End { cleanup: false });
    assert_eq!(task.snapshot.state, TaskState::Cancelled);
}

#[test]
fn failed_start_fails_the_task() {
    let mut task = VideoTask::new(initial_snapshot(None), Some("v".into()));
    let e = SparklingError::Other("启动 yt-dlp 失败: x".into());
    assert_eq!(task.on_started(Err(e)), VideoStep::End { cleanup: false });
    assert_eq!(task.snapshot.state, TaskState::Failed);
    assert_eq!(task.snapshot.error.as_deref(), Some("启动 yt-dlp 失败: x"));
}

#[test]
fn lines_are_taken_into_the_snapshot() {
    let mut snap = initial_snapshot(None);
    apply_line(&mut snap, "SPARKLING|5|NA|NA|NA");
    assert_eq!((snap.downloaded, snap.total, snap.speed), (5, 0, 0));
    apply_line(&mut snap, "SPARKLING|4|100|NA|7.9");
    assert_eq!((snap.downloaded, snap.total, snap.speed), (5, 100, 7));
    apply_line(&mut snap, "noise");
    assert_eq!(snap.speed, 7);
    apply_line(&mut snap, "[ExtractAudio] x");
    assert_eq!((snap.merging, snap.speed), (true, 0));
}

#[test]
fn rejects_http_spec() {
    let mut spec = video_spec("D:\\dl");
    spec.kind = TaskKind::Http;
    let err = submit_video(&spec).err().expect("非视频任务应被拒绝");
    assert!(err.user_message().contains("非视频任务"));
    let mut spec = video_spec("D:\\dl");
    spec.video = None;
    assert_eq!(submit_video(&spec).unwrap_err().user_message(), "视频任务缺少视频参数");
}

// The service

#[test]
fn service_commands() {
    assert_eq!(probe_args(None, "u"), vec!["-J", "--flat-playlist", "u"]);
    let service = VideoService {
        runner: TokioChildRunner { bin: "yt-dlp".into() },
        ffmpeg: None,
        app_bin_dir: "bin".into(),
        packed_ytdlp: None,
        cookie_file: "ck".into(),
    };
    assert_eq!(service.probe_command(true, "u"), vec!["-J", "--flat-playlist", "--cookies", "ck", "u"]);
    assert_eq!(service.probe_command(false, "u"), vec!["-J", "--flat-playlist", "u"]);
    assert_eq!(service.ytdlp("bin/yt-dlp.exe", true), "bin/yt-dlp.exe");
    assert_eq!(service.ytdlp("bin/yt-dlp.exe", false), "yt-dlp.exe");
    assert_eq!(
        cookie_args("firefox", "ck"),
        vec!["--cookies-from-browser", "firefox", "--cookies", "ck", "--simulate", "https://www.youtube.com"]
    );
}

#[test]
fn probe_run_outcomes() {
    let res = |code, tail: &str| RunResult { killed: None, code, stderr_tail: tail.into() };
    let mut run = ProbeRun::new();
    run.on_line("{\"a\":");
    assert_eq!(run.on_exit(Some(res(Some(0), "")), &vec!["1".into(), "}".into()]).unwrap(), "{\"a\":1}");
    assert_eq!(ProbeRun::new().on_exit(None, &vec![]).unwrap_err(), "runner 任务异常退出");
    assert_eq!(ProbeRun::new().on_timeout(), "解析超时（60 秒），请重试");
    assert_eq!(check_probe(&res(Some(1), "ERROR: no")).unwrap_err(), "no");
    assert_eq!(check_probe(&res(Some(-1), "")).unwrap_err(), "解析失败（退出码 Some(-1)）");
    assert_eq!(check_probe(&res(None, "")).unwrap_err(), "解析失败（退出码 None）");
    assert!(check_probe(&res(Some(0), "ERROR: x")).is_ok());
}

#[test]
fn cookie_import_outcomes() {
    assert!(import_cookies(Ok((true, Some(0), "ERROR: x".into()))).is_ok());
    assert_eq!(import_cookies(Err("x".into())).unwrap_err(), "运行 yt-dlp 失败: x");
    assert_eq!(import_cookies(Ok((false, Some(2), "ERROR: locked".into()))).unwrap_err(), "locked");
    assert_eq!(import_cookies(Ok((false, Some(2), "".into()))).unwrap_err(), "导出 cookie 失败（退出码 2）");
    assert_eq!(import_cookies(Ok((false, None, "".into()))).unwrap_err(), "导出 cookie 失败（退出码 -1）");
}

#[test]
fn kinds_and_candidates() {
    assert_eq!(requested_kind(None), Ok(TaskKind::Http));
    assert_eq!(requested_kind(Some("video")), Ok(TaskKind::Video));
    assert_eq!(requested_kind(Some("ftp")), Err("未知任务类型".to_string()));
    let c = |p: &str, exists| Candidate { path: p.into(), exists };
    assert_eq!(find_binary(&vec![c("a", false), c("b", true), c("c", true)]).as_deref(), Some("b"));
    assert_eq!(find_binary(&vec![c("a", false)]), None);
}
