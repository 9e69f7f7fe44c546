//! The error type of the library, its message for users and its technical form.
use crate::text::decimal_of;
use vstd::prelude::*;
use vstd::string::StringExecFns;

verus! {

/// Everything that can go wrong with a download. `user_message` is for the user,
/// `technical` for the details panel.
#[derive(Debug)]
pub enum SparklingError {
    Network(String),
    HttpStatus { status: u16, detail: String },
    InsufficientDisk { required: u64, available: u64 },
    CorruptControlFile(String),
    RemoteChanged(String),
    DiskWrite(String),
    ChecksumMismatch { expected: String, actual: String },
    TaskNotFound(String),
    Other(String),
}

/// The value of a `SparklingError`, with its texts as characters.
pub enum ErrorView {
    Network(Seq<char>),
    HttpStatus { status: u16, detail: Seq<char> },
    InsufficientDisk { required: u64, available: u64 },
    CorruptControlFile(Seq<char>),
    RemoteChanged(Seq<char>),
    DiskWrite(Seq<char>),
    ChecksumMismatch { expected: Seq<char>, actual: Seq<char> },
    TaskNotFound(Seq<char>),
    Other(Seq<char>),
}

impl View for SparklingError {
    type V = ErrorView;

    open spec fn view(&self) -> ErrorView {
        match *self {
            SparklingError::Network(s) => ErrorView::Network(s@),
            SparklingError::HttpStatus { status, detail } => ErrorView::HttpStatus {
                status,
                detail: detail@,
            },
            SparklingError::InsufficientDisk { required, available } =>
                ErrorView::InsufficientDisk { required, available },
            SparklingError::CorruptControlFile(s) => ErrorView::CorruptControlFile(s@),
            SparklingError::RemoteChanged(s) => ErrorView::RemoteChanged(s@),
            SparklingError::DiskWrite(s) => ErrorView::DiskWrite(s@),
            SparklingError::ChecksumMismatch { expected, actual } =>
                ErrorView::ChecksumMismatch { expected: expected@, actual: actual@ },
            SparklingError::TaskNotFound(s) => ErrorView::TaskNotFound(s@),
            SparklingError::Other(s) => ErrorView::Other(s@),
        }
    }
}

impl Clone for SparklingError {
    fn clone(&self) -> (r: Self)
        ensures
            r == *self,
    {
        match self {
            SparklingError::Network(s) => SparklingError::Network(s.clone()),
            SparklingError::HttpStatus { status, detail } => SparklingError::HttpStatus {
                status: *status,
                detail: detail.clone(),
            },
            SparklingError::InsufficientDisk { required, available } =>
                SparklingError::InsufficientDisk { required: *required, available: *available },
            SparklingError::CorruptControlFile(s) => SparklingError::CorruptControlFile(s.clone()),
            SparklingError::RemoteChanged(s) => SparklingError::RemoteChanged(s.clone()),
            SparklingError::DiskWrite(s) => SparklingError::DiskWrite(s.clone()),
            SparklingError::ChecksumMismatch { expected, actual } =>
                SparklingError::ChecksumMismatch {
                    expected: expected.clone(),
                    actual: actual.clone(),
                },
            SparklingError::TaskNotFound(s) => SparklingError::TaskNotFound(s.clone()),
            SparklingError::Other(s) => SparklingError::Other(s.clone()),
        }
    }
}

/// What `format!("{s:?}")` gives for a string `s`: `s` in double quotes, escaped.
pub uninterp spec fn debug_quoted(s: Seq<char>) -> Seq<char>;

/// `<str as Debug>::fmt` through `format!`: the quoted and escaped form of `s`, which
/// depends on the characters of `s` alone.
#[verifier::external_body]
fn quote(s: &str) -> (r: String)
    ensures
        r@ == debug_quoted(s@),
{
    format!("{s:?}")
}

impl ErrorView {
    /// The message for the user.
    pub open spec fn message(self) -> Seq<char> {
        match self {
            ErrorView::Network(s) => "网络错误: "@ + s,
            ErrorView::HttpStatus { status, detail } => "服务器返回 "@ + crate::text::decimal(
                status as nat,
            ) + ": "@ + detail,
            ErrorView::InsufficientDisk { required, available } => "磁盘空间不足: 需要 "@
                + crate::text::decimal(required as nat) + " 字节, 剩余 "@ + crate::text::decimal(
                available as nat,
            ) + " 字节"@,
            ErrorView::CorruptControlFile(s) => "控制文件损坏: "@ + s,
            ErrorView::RemoteChanged(s) => "远端文件已变化: "@ + s,
            ErrorView::DiskWrite(s) => "磁盘写入失败: "@ + s,
            ErrorView::ChecksumMismatch { expected, actual } => "完整性校验失败: 期望 "@ + expected
                + ", 实际 "@ + actual,
            ErrorView::TaskNotFound(s) => "任务不存在: "@ + s,
            ErrorView::Other(s) => s,
        }
    }

    /// The first text field; empty where there is none.
    pub open spec fn first_text(self) -> Seq<char> {
        match self {
            ErrorView::Network(s) => s,
            ErrorView::HttpStatus { status, detail } => detail,
            ErrorView::InsufficientDisk { required, available } => Seq::empty(),
            ErrorView::CorruptControlFile(s) => s,
            ErrorView::RemoteChanged(s) => s,
            ErrorView::DiskWrite(s) => s,
            ErrorView::ChecksumMismatch { expected, actual } => expected,
            ErrorView::TaskNotFound(s) => s,
            ErrorView::Other(s) => s,
        }
    }

    /// The second text field; empty where there is none.
    pub open spec fn second_text(self) -> Seq<char> {
        match self {
            ErrorView::ChecksumMismatch { expected, actual } => actual,
            _ => Seq::empty(),
        }
    }

    /// The variant and its fields in Rust's debug notation, with `first` and `second`
    /// in the place of the text fields.
    pub open spec fn debug_form(self, first: Seq<char>, second: Seq<char>) -> Seq<char> {
        match self {
            ErrorView::Network(s) => "Network("@ + first + ")"@,
            ErrorView::HttpStatus { status, detail } => "HttpStatus { status: "@
                + crate::text::decimal(status as nat) + ", detail: "@ + first + " }"@,
            ErrorView::InsufficientDisk { required, available } =>
                "InsufficientDisk { required: "@ + crate::text::decimal(required as nat)
                + ", available: "@ + crate::text::decimal(available as nat) + " }"@,
            ErrorView::CorruptControlFile(s) => "CorruptControlFile("@ + first + ")"@,
            ErrorView::RemoteChanged(s) => "RemoteChanged("@ + first + ")"@,
            ErrorView::DiskWrite(s) => "DiskWrite("@ + first + ")"@,
            ErrorView::ChecksumMismatch { expected, actual } => "ChecksumMismatch { expected: "@
                + first + ", actual: "@ + second + " }"@,
            ErrorView::TaskNotFound(s) => "TaskNotFound("@ + first + ")"@,
            ErrorView::Other(s) => "Other("@ + first + ")"@,
        }
    }
}

/// `a` followed by `b`.
pub fn cat(a: &str, b: &str) -> (r: String)
    ensures
        r@ == a@ + b@,
{
    a.to_owned().concat(b)
}

impl SparklingError {
    /// The message for the user, in Chinese.
    pub fn user_message(&self) -> (r: String)
        ensures
            r@ == self@.message(),
    {
        match self {
            SparklingError::Network(s) => cat("网络错误: ", s.as_str()),
            SparklingError::HttpStatus { status, detail } => cat(
                "服务器返回 ",
                decimal_of(*status as u64).as_str(),
            ).concat(": ").concat(detail.as_str()),
            SparklingError::InsufficientDisk { required, available } => cat(
                "磁盘空间不足: 需要 ",
                decimal_of(*required).as_str(),
            ).concat(" 字节, 剩余 ").concat(decimal_of(*available).as_str()).concat(" 字节"),
            SparklingError::CorruptControlFile(s) => cat("控制文件损坏: ", s.as_str()),
            SparklingError::RemoteChanged(s) => cat("远端文件已变化: ", s.as_str()),
            SparklingError::DiskWrite(s) => cat("磁盘写入失败: ", s.as_str()),
            SparklingError::ChecksumMismatch { expected, actual } => cat(
                "完整性校验失败: 期望 ",
                expected.as_str(),
            ).concat(", 实际 ").concat(actual.as_str()),
            SparklingError::TaskNotFound(s) => cat("任务不存在: ", s.as_str()),
            SparklingError::Other(s) => s.clone(),
        }
    }

    /// The technical form: variant, status codes and texts, in Rust's debug notation.
    pub fn technical(&self) -> (r: String)
        ensures
            r@ == self@.debug_form(
                debug_quoted(self@.first_text()),
                debug_quoted(self@.second_text()),
            ),
    {
        let empty: String = String::new();
        let (first, second) = match self {
            SparklingError::Network(s) => (s, &empty),
            SparklingError::HttpStatus { status: _, detail } => (detail, &empty),
            SparklingError::InsufficientDisk { required: _, available: _ } => (&empty, &empty),
            SparklingError::CorruptControlFile(s) => (s, &empty),
            SparklingError::RemoteChanged(s) => (s, &empty),
            SparklingError::DiskWrite(s) => (s, &empty),
            SparklingError::ChecksumMismatch { expected, actual } => (expected, actual),
            SparklingError::TaskNotFound(s) => (s, &empty),
            SparklingError::Other(s) => (s, &empty),
        };
        self.technical_with(quote(first.as_str()).as_str(), quote(second.as_str()).as_str())
    }

    /// The technical form, given the quoted text fields.
    pub fn technical_with(&self, first: &str, second: &str) -> (r: String)
        ensures
            r@ == self@.debug_form(first@, second@),
    {
        match self {
            SparklingError::Network(_) => cat("Network(", first).concat(")"),
            SparklingError::HttpStatus { status, detail: _ } => cat(
                "HttpStatus { status: ",
                decimal_of(*status as u64).as_str(),
            ).concat(", detail: ").concat(first).concat(" }"),
            SparklingError::InsufficientDisk { required, available } => cat(
                "InsufficientDisk { required: ",
                decimal_of(*required).as_str(),
            ).concat(", available: ").concat(decimal_of(*available).as_str()).concat(" }"),
            SparklingError::CorruptControlFile(_) => cat("CorruptControlFile(", first).concat(")"),
            SparklingError::RemoteChanged(_) => cat("RemoteChanged(", first).concat(")"),
            SparklingError::DiskWrite(_) => cat("DiskWrite(", first).concat(")"),
            SparklingError::ChecksumMismatch { expected: _, actual: _ } => cat(
                "ChecksumMismatch { expected: ",
                first,
            ).concat(", actual: ").concat(second).concat(" }"),
            SparklingError::TaskNotFound(_) => cat("TaskNotFound(", first).concat(")"),
            SparklingError::Other(_) => cat("Other(", first).concat(")"),
        }
    }
}

/// The message for the user ends with what went wrong, behind a text that tells the kinds of
/// errors apart. A status, the space and the checksums stand in it.
pub proof fn messages_say_what_went_wrong(s: Seq<char>, t: Seq<char>, status: u16, n: u64, m: u64)
    ensures
        ErrorView::Other(s).message() == s,
        s.is_suffix_of(ErrorView::Network(s).message()),
        s.is_suffix_of(ErrorView::CorruptControlFile(s).message()),
        s.is_suffix_of(ErrorView::RemoteChanged(s).message()),
        s.is_suffix_of(ErrorView::DiskWrite(s).message()),
        s.is_suffix_of(ErrorView::TaskNotFound(s).message()),
        ErrorView::Network(s).message().take(4) == seq!['网', '络', '错', '误'],
        ErrorView::CorruptControlFile(s).message().take(4) == seq!['控', '制', '文', '件'],
        ErrorView::RemoteChanged(s).message().take(4) == seq!['远', '端', '文', '件'],
        ErrorView::DiskWrite(s).message().take(4) == seq!['磁', '盘', '写', '入'],
        ErrorView::TaskNotFound(s).message().take(4) == seq!['任', '务', '不', '存'],
        ({
            let code = crate::text::decimal(status as nat);
            let text = (ErrorView::HttpStatus { status, detail: s }).message();
            &&& text.take(5) == seq!['服', '务', '器', '返', '回']
            &&& text.subrange(6, 6 + code.len() as int) == code
            &&& s.is_suffix_of(text)
            &&& text.len() == 6 + code.len() + 2 + s.len()
        }),
        ({
            let need = crate::text::decimal(n as nat);
            let free = crate::text::decimal(m as nat);
            let text = (ErrorView::InsufficientDisk { required: n, available: m }).message();
            &&& text.take(6) == seq!['磁', '盘', '空', '间', '不', '足']
            &&& text.subrange(11, 11 + need.len() as int) == need
            &&& text.subrange(19 + need.len() as int, 19 + need.len() as int + free.len() as int) == free
        }),
        ({
            let text = (ErrorView::ChecksumMismatch { expected: s, actual: t }).message();
            &&& text.take(5) == seq!['完', '整', '性', '校', '验']
            &&& text.subrange(12, 12 + s.len() as int) == s
            &&& t.is_suffix_of(text)
        }),
{
    reveal_strlit("网络错误: ");
    reveal_strlit("服务器返回 ");
    reveal_strlit(": ");
    reveal_strlit("磁盘空间不足: 需要 ");
    reveal_strlit(" 字节, 剩余 ");
    reveal_strlit(" 字节");
    reveal_strlit("控制文件损坏: ");
    reveal_strlit("远端文件已变化: ");
    reveal_strlit("磁盘写入失败: ");
    reveal_strlit("完整性校验失败: 期望 ");
    reveal_strlit(", 实际 ");
    reveal_strlit("任务不存在: ");
    ends_in(ErrorView::Network(s).message(), "网络错误: "@, s);
    ends_in(ErrorView::CorruptControlFile(s).message(), "控制文件损坏: "@, s);
    ends_in(ErrorView::RemoteChanged(s).message(), "远端文件已变化: "@, s);
    ends_in(ErrorView::DiskWrite(s).message(), "磁盘写入失败: "@, s);
    ends_in(ErrorView::TaskNotFound(s).message(), "任务不存在: "@, s);
    assert(ErrorView::Network(s).message().take(4) =~= seq!['网', '络', '错', '误']);
    assert(ErrorView::CorruptControlFile(s).message().take(4) =~= seq!['控', '制', '文', '件']);
    assert(ErrorView::RemoteChanged(s).message().take(4) =~= seq!['远', '端', '文', '件']);
    assert(ErrorView::DiskWrite(s).message().take(4) =~= seq!['磁', '盘', '写', '入']);
    assert(ErrorView::TaskNotFound(s).message().take(4) =~= seq!['任', '务', '不', '存']);
    let code = crate::text::decimal(status as nat);
    let a = (ErrorView::HttpStatus { status, detail: s }).message();
    assert(a.take(5) =~= seq!['服', '务', '器', '返', '回']);
    assert(a.subrange(6, 6 + code.len() as int) =~= code);
    assert(a.skip(a.len() - s.len()) =~= s);
    let need = crate::text::decimal(n as nat);
    let free = crate::text::decimal(m as nat);
    let b = (ErrorView::InsufficientDisk { required: n, available: m }).message();
    assert(b.take(6) =~= seq!['磁', '盘', '空', '间', '不', '足']);
    assert(b.subrange(11, 11 + need.len() as int) =~= need);
    assert(b.subrange(19 + need.len() as int, 19 + need.len() as int + free.len() as int) =~= free);
    let c = (ErrorView::ChecksumMismatch { expected: s, actual: t }).message();
    assert(c.take(5) =~= seq!['完', '整', '性', '校', '验']);
    assert(c.subrange(12, 12 + s.len() as int) =~= s);
    assert(c.skip(c.len() - t.len()) =~= t);
}

proof fn ends_in(text: Seq<char>, head: Seq<char>, tail: Seq<char>)
    requires
        text == head + tail,
    ensures
        tail.is_suffix_of(text),
{
    assert(text.skip(text.len() - tail.len()) =~= tail);
}

/// The technical form names the variant and holds its quoted texts: the first text field in
/// the place of the first, the second in that of the second.
pub proof fn technical_form_holds_the_texts(e: ErrorView, first: Seq<char>, second: Seq<char>)
    ensures
        e is Network ==> e.debug_form(first, second) == "Network("@ + first + ")"@
            && e.first_text() == e->Network_0,
        e is CorruptControlFile ==> e.debug_form(first, second) == "CorruptControlFile("@ + first
            + ")"@ && e.first_text() == e->CorruptControlFile_0,
        e is RemoteChanged ==> e.debug_form(first, second) == "RemoteChanged("@ + first + ")"@
            && e.first_text() == e->RemoteChanged_0,
        e is DiskWrite ==> e.debug_form(first, second) == "DiskWrite("@ + first + ")"@
            && e.first_text() == e->DiskWrite_0,
        e is TaskNotFound ==> e.debug_form(first, second) == "TaskNotFound("@ + first + ")"@
            && e.first_text() == e->TaskNotFound_0,
        e is Other ==> e.debug_form(first, second) == "Other("@ + first + ")"@ && e.first_text()
            == e->Other_0,
        e is HttpStatus ==> e.debug_form(first, second) == "HttpStatus { status: "@
            + crate::text::decimal(e->status as nat) + ", detail: "@ + first + " }"@
            && e.first_text() == e->detail,
        e is InsufficientDisk ==> e.debug_form(first, second) == "InsufficientDisk { required: "@
            + crate::text::decimal(e->required as nat) + ", available: "@ + crate::text::decimal(
            e->available as nat,
        ) + " }"@,
        e is ChecksumMismatch ==> e.debug_form(first, second) == "ChecksumMismatch { expected: "@
            + first + ", actual: "@ + second + " }"@ && e.first_text() == e->expected
            && e.second_text() == e->actual,
{
}

/// An error is seen as it is, with its texts.
pub proof fn errors_are_seen_as_they_are(e: SparklingError)
    ensures
        e is Network ==> e@ == ErrorView::Network(e->Network_0@),
        e is HttpStatus ==> e@ == (ErrorView::HttpStatus { status: e->status, detail: e->detail@ }),
        e is InsufficientDisk ==> e@ == (ErrorView::InsufficientDisk {
            required: e->required,
            available: e->available,
        }),
        e is CorruptControlFile ==> e@ == ErrorView::CorruptControlFile(e->CorruptControlFile_0@),
        e is RemoteChanged ==> e@ == ErrorView::RemoteChanged(e->RemoteChanged_0@),
        e is DiskWrite ==> e@ == ErrorView::DiskWrite(e->DiskWrite_0@),
        e is ChecksumMismatch ==> e@ == (ErrorView::ChecksumMismatch {
            expected: e->expected@,
            actual: e->actual@,
        }),
        e is TaskNotFound ==> e@ == ErrorView::TaskNotFound(e->TaskNotFound_0@),
        e is Other ==> e@ == ErrorView::Other(e->Other_0@),
{
}

} // verus!
