use sparkling_core::store::{
    migration, record_to_row, row_to_record, store_error, Migration, StoreStep, TaskRecord,
};
use sparkling_core::task::{TaskKind, TaskState, VideoMeta, VideoParams};

fn http_rec(id: &str) -> TaskRecord {
    TaskRecord {
        id: id.into(),
        url: "http://example.com/a.bin".into(),
        state: TaskState::Queued,
        save_dir: "/tmp".into(),
        filename: Some("a.bin".into()),
        segments: 8,
        max_speed: None,
        total_size: None,
        downloaded: 0,
        error: None,
        created_at: 1700000000,
        kind: TaskKind::Http,
        video: None,
        video_meta: None,
        collection: None,
    }
}

#[test]
fn video_record_roundtrip() {
    let mut rec = http_rec("v1");
    rec.kind = TaskKind::Video;
    rec.video = Some(VideoParams {
        format: "bv*[height<=1080]+ba/b".into(),
        subtitles: vec!["zh-Hans".into()],
        auto_subs: true,
    });
    rec.video_meta = Some(VideoMeta {
        title: "测试视频标题".into(),
        duration_sec: Some(123),
        thumbnail: Some("https://example.com/t.jpg".into()),
        uploader: Some("上传者".into()),
        webpage_url: Some("https://example.com/watch?v=1".into()),
    });
    let row = record_to_row(&rec);
    assert_eq!((row.state.as_str(), row.kind.as_deref()), ("queued", Some("video")));
    let back = row_to_record(row);
    assert_eq!(back.kind, TaskKind::Video);
    assert_eq!(
        back.video.as_ref().unwrap().format,
        "bv*[height<=1080]+ba/b"
    );
    assert_eq!(
        back.video.as_ref().unwrap().subtitles,
        vec!["zh-Hans".to_string()]
    );
    assert_eq!(back.video_meta.as_ref().unwrap().title, "测试视频标题");
    assert_eq!(back.video_meta.as_ref().unwrap().duration_sec, Some(123));
    assert_eq!(format!("{back:?}"), format!("{rec:?}"));
}

#[test]
fn collection_roundtrip() {
    let mut rec = http_rec("c1");
    rec.collection = Some("测试合集".into());
    rec.state = TaskState::Failed;
    rec.error = Some("x".into());
    rec.total_size = Some(5);
    rec.downloaded = 3;
    rec.max_speed = Some(7);
    let back = row_to_record(record_to_row(&rec));
    assert_eq!(back.collection.as_deref(), Some("测试合集"));
    assert_eq!(format!("{back:?}"), format!("{rec:?}"));
    assert_eq!(format!("{:?}", rec.clone()), format!("{rec:?}"));
}

#[test]
fn unknown_names_have_defaults() {
    let mut row = record_to_row(&http_rec("x"));
    row.state = "bogus".into();
    row.kind = Some("bogus".into());
    let rec = row_to_record(row);
    assert_eq!(rec.state, TaskState::Failed);
    assert_eq!(rec.kind, TaskKind::Http);
    let mut row = record_to_row(&http_rec("x"));
    row.kind = None;
    assert_eq!(row_to_record(row).kind, TaskKind::Http);
}

#[test]
fn migrations_by_version() {
    let m = |video_columns, collection_column| Migration { video_columns, collection_column };
    assert_eq!(migration(0), m(true, true));
    assert_eq!(migration(1), m(false, true));
    assert_eq!(migration(2), m(false, false));
    assert_eq!(migration(3), m(false, false));
}

#[test]
fn store_errors_name_the_step() {
    let text = |s| store_error(s, "x").user_message();
    assert_eq!(text(StoreStep::Open), "打开数据库失败: x");
    assert_eq!(text(StoreStep::OpenInMemory), "创建内存库失败: x");
    assert_eq!(text(StoreStep::CreateTable), "初始化表失败: x");
    assert_eq!(text(StoreStep::ReadVersion), "读取库版本失败: x");
    assert_eq!(text(StoreStep::Migrate), "迁移数据库失败: x");
    assert_eq!(text(StoreStep::Insert), "插入失败: x");
    assert_eq!(text(StoreStep::Query), "查询失败: x");
    assert_eq!(text(StoreStep::ReadRow), "读取行失败: x");
    assert_eq!(text(StoreStep::UpdateState), "更新状态失败: x");
    assert_eq!(text(StoreStep::UpdateProgress), "更新进度失败: x");
    assert_eq!(text(StoreStep::UpdateFilename), "更新文件名失败: x");
    assert_eq!(text(StoreStep::Delete), "删除失败: x");
    assert_eq!(text(StoreStep::EncodeParams), "序列化视频参数失败: x");
    assert_eq!(text(StoreStep::EncodeMeta), "序列化视频元数据失败: x");
}
