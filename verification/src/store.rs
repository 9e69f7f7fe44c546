//! Task records and the rows that they are stored in.
use crate::error::{cat, ErrorView, SparklingError};
use crate::task::{
    kind_names_roundtrip, meta_clone, meta_view, params_clone, params_view, state_names_roundtrip,
    TaskKind, TaskState, VideoMeta, VideoMetaView, VideoParams, VideoParamsView,
};
use crate::text::{opt_clone, opt_view};
use vstd::prelude::*;

verus! {

/// A task as it is stored.
#[derive(Debug)]
pub struct TaskRecord {
    pub id: String,
    pub url: String,
    pub state: TaskState,
    pub save_dir: String,
    pub filename: Option<String>,
    pub segments: u32,
    pub max_speed: Option<u64>,
    pub total_size: Option<u64>,
    pub downloaded: u64,
    pub error: Option<String>,
    pub created_at: i64,
    pub kind: TaskKind,
    pub video: Option<VideoParams>,
    pub video_meta: Option<VideoMeta>,
    /// The playlist that the task belongs to, if any.
    pub collection: Option<String>,
}

pub struct RecordView {
    pub id: Seq<char>,
    pub url: Seq<char>,
    pub state: TaskState,
    pub save_dir: Seq<char>,
    pub filename: Option<Seq<char>>,
    pub segments: u32,
    pub max_speed: Option<u64>,
    pub total_size: Option<u64>,
    pub downloaded: u64,
    pub error: Option<Seq<char>>,
    pub created_at: i64,
    pub kind: TaskKind,
    pub video: Option<VideoParamsView>,
    pub video_meta: Option<VideoMetaView>,
    pub collection: Option<Seq<char>>,
}

impl View for TaskRecord {
    type V = RecordView;

    open spec fn view(&self) -> RecordView {
        RecordView {
            id: self.id@,
            url: self.url@,
            state: self.state,
            save_dir: self.save_dir@,
            filename: opt_view(self.filename),
            segments: self.segments,
            max_speed: self.max_speed,
            total_size: self.total_size,
            downloaded: self.downloaded,
            error: opt_view(self.error),
            created_at: self.created_at,
            kind: self.kind,
            video: params_view(self.video),
            video_meta: meta_view(self.video_meta),
            collection: opt_view(self.collection),
        }
    }
}

impl Clone for TaskRecord {
    fn clone(&self) -> (r: Self)
        ensures
            r@ == self@,
    {
        TaskRecord {
            id: self.id.clone(),
            url: self.url.clone(),
            state: self.state,
            save_dir: self.save_dir.clone(),
            filename: opt_clone(&self.filename),
            segments: self.segments,
            max_speed: self.max_speed,
            total_size: self.total_size,
            downloaded: self.downloaded,
            error: opt_clone(&self.error),
            created_at: self.created_at,
            kind: self.kind,
            video: params_clone(&self.video),
            video_meta: meta_clone(&self.video_meta),
            collection: opt_clone(&self.collection),
        }
    }
}

/// The columns of a row: names in place of states and kinds. `kind` is `None` where the
/// column cannot be read, `video` and `video_meta` also where they hold nothing readable.
#[derive(Debug)]
pub struct TaskRow {
    pub id: String,
    pub url: String,
    pub state: String,
    pub save_dir: String,
    pub filename: Option<String>,
    pub segments: u32,
    pub max_speed: Option<u64>,
    pub total_size: Option<u64>,
    pub downloaded: u64,
    pub error: Option<String>,
    pub created_at: i64,
    pub kind: Option<String>,
    pub video: Option<VideoParams>,
    pub video_meta: Option<VideoMeta>,
    pub collection: Option<String>,
}

/// The state named `name`, or `Failed` where there is none.
pub open spec fn read_state(name: Seq<char>) -> TaskState {
    match TaskState::named(name) {
        Some(s) => s,
        None => TaskState::Failed,
    }
}

/// The kind named `name`, or `Http` where there is none.
pub open spec fn read_kind(name: Option<Seq<char>>) -> TaskKind {
    match name {
        Some(n) => match TaskKind::named(n) {
            Some(k) => k,
            None => TaskKind::Http,
        },
        None => TaskKind::Http,
    }
}

/// The record that a row holds.
pub open spec fn read_row(row: TaskRow) -> RecordView {
    RecordView {
        id: row.id@,
        url: row.url@,
        state: read_state(row.state@),
        save_dir: row.save_dir@,
        filename: opt_view(row.filename),
        segments: row.segments,
        max_speed: row.max_speed,
        total_size: row.total_size,
        downloaded: row.downloaded,
        error: opt_view(row.error),
        created_at: row.created_at,
        kind: read_kind(opt_view(row.kind)),
        video: params_view(row.video),
        video_meta: meta_view(row.video_meta),
        collection: opt_view(row.collection),
    }
}

/// The record in a row. A state that is not known counts as failed, a kind that is not
/// known as HTTP.
pub fn row_to_record(row: TaskRow) -> (r: TaskRecord)
    ensures
        r@ == read_row(row),
{
    let state: TaskState = match TaskState::parse(row.state.as_str()) {
        Some(s) => s,
        None => TaskState::Failed,
    };
    let kind: TaskKind = match &row.kind {
        Some(name) => match TaskKind::parse(name.as_str()) {
            Some(k) => k,
            None => TaskKind::Http,
        },
        None => TaskKind::Http,
    };
    TaskRecord {
        id: row.id,
        url: row.url,
        state,
        save_dir: row.save_dir,
        filename: row.filename,
        segments: row.segments,
        max_speed: row.max_speed,
        total_size: row.total_size,
        downloaded: row.downloaded,
        error: row.error,
        created_at: row.created_at,
        kind,
        video: row.video,
        video_meta: row.video_meta,
        collection: row.collection,
    }
}

/// The row of a record.
pub fn record_to_row(rec: &TaskRecord) -> (r: TaskRow)
    ensures
        is_row_of(r, rec@),
{
    TaskRow {
        id: rec.id.clone(),
        url: rec.url.clone(),
        state: rec.state.as_str().to_owned(),
        save_dir: rec.save_dir.clone(),
        filename: opt_clone(&rec.filename),
        segments: rec.segments,
        max_speed: rec.max_speed,
        total_size: rec.total_size,
        downloaded: rec.downloaded,
        error: opt_clone(&rec.error),
        created_at: rec.created_at,
        kind: Some(rec.kind.as_str().to_owned()),
        video: params_clone(&rec.video),
        video_meta: meta_clone(&rec.video_meta),
        collection: opt_clone(&rec.collection),
    }
}

/// `row` holds the record `rec`.
pub open spec fn is_row_of(row: TaskRow, rec: RecordView) -> bool {
    &&& row.id@ == rec.id
    &&& row.url@ == rec.url
    &&& row.state@ == rec.state.name()
    &&& row.save_dir@ == rec.save_dir
    &&& opt_view(row.filename) == rec.filename
    &&& row.segments == rec.segments
    &&& row.max_speed == rec.max_speed
    &&& row.total_size == rec.total_size
    &&& row.downloaded == rec.downloaded
    &&& opt_view(row.error) == rec.error
    &&& row.created_at == rec.created_at
    &&& opt_view(row.kind) == Some(rec.kind.name())
    &&& params_view(row.video) == rec.video
    &&& meta_view(row.video_meta) == rec.video_meta
    &&& opt_view(row.collection) == rec.collection
}

/// What is stored is read back: the row of a record holds that record.
pub proof fn stored_record_reads_back(row: TaskRow, rec: RecordView)
    requires
        is_row_of(row, rec),
    ensures
        read_row(row) == rec,
{
    state_names_roundtrip(rec.state, row.state@);
    kind_names_roundtrip(rec.kind, row.state@);
}

// ---------------------------------------------------------------------------
// Versions of the table
// ---------------------------------------------------------------------------
/// The changes that bring a table up to date.
#[derive(Debug, Clone, Copy, PartialEq, Eq, Structural)]
pub struct Migration {
    /// Add the columns of video tasks; the table is then at version 1.
    pub video_columns: bool,
    /// Add the column of the playlist; the table is then at version 2.
    pub collection_column: bool,
}

/// The changes that a table of the given version needs.
pub fn migration(version: i64) -> (r: Migration)
    ensures
        r == needed(version as int),
{
    Migration { video_columns: version < 1, collection_column: version < 2 }
}

/// The changes that a table of the given version needs.
pub open spec fn needed(version: int) -> Migration {
    Migration { video_columns: version < 1, collection_column: version < 2 }
}

/// The version of a table after some changes.
pub open spec fn migrated(version: int, m: Migration) -> int {
    if m.collection_column {
        2
    } else if m.video_columns {
        1
    } else {
        version
    }
}

/// Bringing a table up to date is done once: afterwards nothing is needed any more, and a
/// table that is up to date is left alone.
pub proof fn migration_is_idempotent(version: int)
    ensures
        needed(migrated(version, needed(version))) == (Migration {
            video_columns: false,
            collection_column: false,
        }),
        version >= 2 ==> migrated(version, needed(version)) == version,
        migrated(version, needed(version)) >= 2,
{
}

// ---------------------------------------------------------------------------
// Errors
// ---------------------------------------------------------------------------
/// What was done with the store when it failed.
#[derive(Debug, Clone, Copy, PartialEq, Eq, Structural)]
pub enum StoreStep {
    Open,
    OpenInMemory,
    CreateTable,
    ReadVersion,
    Migrate,
    Insert,
    Query,
    ReadRow,
    UpdateState,
    UpdateProgress,
    UpdateFilename,
    Delete,
    EncodeParams,
    EncodeMeta,
}

/// What the user is told of a failed step.
pub open spec fn store_prefix(step: StoreStep) -> Seq<char> {
    match step {
        StoreStep::Open => "打开数据库失败: "@,
        StoreStep::OpenInMemory => "创建内存库失败: "@,
        StoreStep::CreateTable => "初始化表失败: "@,
        StoreStep::ReadVersion => "读取库版本失败: "@,
        StoreStep::Migrate => "迁移数据库失败: "@,
        StoreStep::Insert => "插入失败: "@,
        StoreStep::Query => "查询失败: "@,
        StoreStep::ReadRow => "读取行失败: "@,
        StoreStep::UpdateState => "更新状态失败: "@,
        StoreStep::UpdateProgress => "更新进度失败: "@,
        StoreStep::UpdateFilename => "更新文件名失败: "@,
        StoreStep::Delete => "删除失败: "@,
        StoreStep::EncodeParams => "序列化视频参数失败: "@,
        StoreStep::EncodeMeta => "序列化视频元数据失败: "@,
    }
}

/// The error of the store: which step failed, and why.
pub fn store_error(step: StoreStep, why: &str) -> (r: SparklingError)
    ensures
        r@ == ErrorView::Other(store_prefix(step) + why@),
{
    let prefix: &str = match step {
        StoreStep::Open => "打开数据库失败: ",
        StoreStep::OpenInMemory => "创建内存库失败: ",
        StoreStep::CreateTable => "初始化表失败: ",
        StoreStep::ReadVersion => "读取库版本失败: ",
        StoreStep::Migrate => "迁移数据库失败: ",
        StoreStep::Insert => "插入失败: ",
        StoreStep::Query => "查询失败: ",
        StoreStep::ReadRow => "读取行失败: ",
        StoreStep::UpdateState => "更新状态失败: ",
        StoreStep::UpdateProgress => "更新进度失败: ",
        StoreStep::UpdateFilename => "更新文件名失败: ",
        StoreStep::Delete => "删除失败: ",
        StoreStep::EncodeParams => "序列化视频参数失败: ",
        StoreStep::EncodeMeta => "序列化视频元数据失败: ",
    };
    SparklingError::Other(cat(prefix, why))
}

// ---------------------------------------------------------------------------
// Laws
// ---------------------------------------------------------------------------
/// A row holds each field of the record as it is, and the state and the kind by their names.
pub proof fn rows_hold_every_field(row: TaskRow, rec: TaskRecord)
    requires
        is_row_of(row, rec@),
    ensures
        row.id@ == rec.id@,
        row.url@ == rec.url@,
        row.state@ == rec.state.name(),
        row.save_dir@ == rec.save_dir@,
        row.filename is Some <==> rec.filename is Some,
        rec.filename is Some ==> row.filename->0@ == rec.filename->0@,
        row.segments == rec.segments,
        row.max_speed == rec.max_speed,
        row.total_size == rec.total_size,
        row.downloaded == rec.downloaded,
        row.error is Some <==> rec.error is Some,
        rec.error is Some ==> row.error->0@ == rec.error->0@,
        row.created_at == rec.created_at,
        row.kind is Some,
        row.kind->0@ == rec.kind.name(),
        row.video is Some <==> rec.video is Some,
        rec.video is Some ==> row.video->0@ == rec.video->0@,
        row.video_meta is Some <==> rec.video_meta is Some,
        rec.video_meta is Some ==> row.video_meta->0@ == rec.video_meta->0@,
        row.collection is Some <==> rec.collection is Some,
        rec.collection is Some ==> row.collection->0@ == rec.collection->0@,
{
}

/// A record read from a row has each field as it stands there. A state that has no such name
/// counts as failed, a kind that has none, or is missing, as HTTP.
pub proof fn rows_are_read_as_they_stand(row: TaskRow, rec: TaskRecord, s: TaskState, k: TaskKind)
    requires
        rec@ == read_row(row),
    ensures
        rec.id@ == row.id@,
        rec.url@ == row.url@,
        row.state@ == s.name() ==> rec.state == s,
        (forall|t: TaskState| row.state@ != #[trigger] t.name()) ==> rec.state is Failed,
        rec.save_dir@ == row.save_dir@,
        rec.filename is Some <==> row.filename is Some,
        row.filename is Some ==> rec.filename->0@ == row.filename->0@,
        rec.segments == row.segments,
        rec.max_speed == row.max_speed,
        rec.total_size == row.total_size,
        rec.downloaded == row.downloaded,
        rec.error is Some <==> row.error is Some,
        row.error is Some ==> rec.error->0@ == row.error->0@,
        rec.created_at == row.created_at,
        row.kind is Some && row.kind->0@ == k.name() ==> rec.kind == k,
        row.kind is None ==> rec.kind is Http,
        row.kind is Some && (forall|t: TaskKind| row.kind->0@ != #[trigger] t.name())
            ==> rec.kind is Http,
        rec.video is Some <==> row.video is Some,
        row.video is Some ==> rec.video->0@ == row.video->0@,
        rec.video_meta is Some <==> row.video_meta is Some,
        row.video_meta is Some ==> rec.video_meta->0@ == row.video_meta->0@,
        rec.collection is Some <==> row.collection is Some,
        row.collection is Some ==> rec.collection->0@ == row.collection->0@,
{
    state_names_roundtrip(s, row.state@);
    if row.kind is Some {
        kind_names_roundtrip(k, row.kind->0@);
    }
}

/// A table gets the columns that came after its version and no others: those of video tasks
/// came with version 1, that of the playlist with version 2.
pub proof fn tables_get_the_missing_columns(version: int)
    ensures
        needed(version).video_columns <==> version <= 0,
        needed(version).collection_column <==> version <= 1,
        migrated(version, needed(version)) == if version >= 2 {
            version
        } else {
            2
        },
{
}

/// Every failed step of the store has a text of its own, and the error says why behind it.
pub proof fn store_errors_name_the_step(a: StoreStep, b: StoreStep, why: Seq<char>)
    ensures
        store_prefix(a) == store_prefix(b) ==> a == b,
        why.is_suffix_of(store_prefix(a) + why),
        store_prefix(a).len() > 0,
{
    reveal_strlit("打开数据库失败: ");
    reveal_strlit("创建内存库失败: ");
    reveal_strlit("初始化表失败: ");
    reveal_strlit("读取库版本失败: ");
    reveal_strlit("迁移数据库失败: ");
    reveal_strlit("插入失败: ");
    reveal_strlit("查询失败: ");
    reveal_strlit("读取行失败: ");
    reveal_strlit("更新状态失败: ");
    reveal_strlit("更新进度失败: ");
    reveal_strlit("更新文件名失败: ");
    reveal_strlit("删除失败: ");
    reveal_strlit("序列化视频参数失败: ");
    reveal_strlit("序列化视频元数据失败: ");
    assert("打开数据库失败: "@[0] == '打');
    assert("创建内存库失败: "@[0] == '创');
    assert("初始化表失败: "@[0] == '初');
    assert("读取库版本失败: "@[0] == '读' && "读取库版本失败: "@[2] == '库');
    assert("迁移数据库失败: "@[0] == '迁');
    assert("插入失败: "@[0] == '插');
    assert("查询失败: "@[0] == '查');
    assert("读取行失败: "@[0] == '读' && "读取行失败: "@[2] == '行');
    assert("更新状态失败: "@[0] == '更' && "更新状态失败: "@[2] == '状');
    assert("更新进度失败: "@[0] == '更' && "更新进度失败: "@[2] == '进');
    assert("更新文件名失败: "@[0] == '更' && "更新文件名失败: "@[2] == '文');
    assert("删除失败: "@[0] == '删');
    assert("序列化视频参数失败: "@[0] == '序' && "序列化视频参数失败: "@[5] == '参');
    assert("序列化视频元数据失败: "@[0] == '序' && "序列化视频元数据失败: "@[5] == '元');
    let t = store_prefix(a) + why;
    assert(t.skip(t.len() - why.len()) =~= why);
}

/// A record is seen field by field.
pub proof fn records_show_every_field(rec: TaskRecord)
    ensures
        rec@.id == rec.id@,
        rec@.url == rec.url@,
        rec@.state == rec.state,
        rec@.save_dir == rec.save_dir@,
        rec@.segments == rec.segments,
        rec@.max_speed == rec.max_speed,
        rec@.total_size == rec.total_size,
        rec@.downloaded == rec.downloaded,
        rec@.created_at == rec.created_at,
        rec@.kind == rec.kind,
        rec@.filename is Some <==> rec.filename is Some,
        rec.filename is Some ==> rec@.filename->0 == rec.filename->0@,
        rec@.error is Some <==> rec.error is Some,
        rec.error is Some ==> rec@.error->0 == rec.error->0@,
        rec@.video is Some <==> rec.video is Some,
        rec.video is Some ==> rec@.video->0 == rec.video->0@,
        rec@.video_meta is Some <==> rec.video_meta is Some,
        rec.video_meta is Some ==> rec@.video_meta->0 == rec.video_meta->0@,
        rec@.collection is Some <==> rec.collection is Some,
        rec.collection is Some ==> rec@.collection->0 == rec.collection->0@,
{
}

} // verus!
