use sparkling_core::probe::{
    filename_from_headers, filename_from_url, last_url_segment, name_in_disposition, or_default_name,
    probe, wants_plain_request, DispositionName, ProbeReply,
};
use sparkling_core::SparklingError;

const URL: &str = "http://127.0.0.1:8080/file.bin";

fn reply(status: u16) -> ProbeReply {
    ProbeReply {
        status,
        content_range: None,
        content_length: None,
        content_disposition: None,
        etag: Some("\"v1\"".into()),
        last_modified: None,
        content_md5: None,
    }
}

fn partial(total: &str) -> ProbeReply {
    ProbeReply { content_range: Some(format!("bytes 0-0/{total}")), ..reply(206) }
}

#[test]
fn probe_range_server() {
    let p = probe(URL, partial("5000")).unwrap();
    assert_eq!(p.total, 5000);
    assert!(p.supports_range);
    assert_eq!(p.filename, "file.bin");
    assert_eq!(p.etag.as_deref(), Some("\"v1\""));
}

#[test]
fn probe_no_range_server() {
    let p = probe(URL, ProbeReply { content_length: Some("5000".into()), ..reply(200) }).unwrap();
    assert_eq!(p.total, 5000);
    assert!(!p.supports_range);
}

#[test]
fn probe_disposition_overrides_filename() {
    let r = ProbeReply {
        content_disposition: Some("attachment; filename=\"report-q4.zip\"".into()),
        ..partial("100")
    };
    assert_eq!(probe(URL, r).unwrap().filename, "report-q4.zip");
}

#[test]
fn probe_http_error() {
    let err = probe(URL, reply(500)).unwrap_err();
    assert_eq!(err.user_message(), format!("服务器返回 500: 探测失败: {URL}"));
    assert!(matches!(
        err,
        SparklingError::HttpStatus { status: 500, .. }
    ));
}

#[test]
fn probe_content_md5_present() {
    let r = ProbeReply { content_md5: Some("abc==".into()), ..partial("100") };
    let p = probe(URL, r).unwrap();
    assert!(p.content_md5.is_some());
    assert_eq!(p.content_md5.as_deref(), Some("abc=="));
}

#[test]
fn probe_needs_a_size() {
    let text = |r: ProbeReply| probe(URL, r).unwrap_err().user_message();
    assert_eq!(text(reply(206)), "网络错误: 206 响应缺少 Content-Range");
    assert_eq!(text(partial("*")), "网络错误: Content-Range 无法解析: bytes 0-0/*");
    assert_eq!(text(partial("18446744073709551616")), "网络错误: Content-Range 无法解析: bytes 0-0/18446744073709551616");
    assert_eq!(text(reply(200)), "网络错误: 服务器未提供文件大小，暂不支持");
    let bad = ProbeReply { content_length: Some(" 12".into()), ..reply(200) };
    assert_eq!(text(bad), "网络错误: 服务器未提供文件大小，暂不支持");
    let plus = ProbeReply { content_length: Some("+12".into()), ..reply(200) };
    assert_eq!(probe(URL, plus).unwrap().total, 12);
}

#[test]
fn only_416_is_asked_again() {
    assert!(wants_plain_request(416));
    assert!(!wants_plain_request(206));
    assert!(!wants_plain_request(500));
}

#[test]
fn names_in_headers() {
    let name = |h: &str| filename_from_headers(&Some(h.to_string()));
    assert_eq!(filename_from_headers(&None), None);
    assert_eq!(name("inline"), None);
    assert_eq!(name("attachment; filename=a.bin").as_deref(), Some("a.bin"));
    assert_eq!(name("attachment;filename=\"\"a b\"").as_deref(), Some("a b"));
    assert_eq!(
        name("attachment; filename*=UTF-8''%E6%8A%A5%E8%A1%A8.zip; filename=x").as_deref(),
        Some("报表.zip")
    );
    assert_eq!(name("attachment; filename=x; filename*=UTF-8''y").as_deref(), Some("x"));
    assert!(matches!(
        name_in_disposition("x; filename*=UTF-8''a%20b"),
        Some(DispositionName::Encoded(s)) if s == "a%20b"
    ));
}

#[test]
fn names_in_urls() {
    assert_eq!(filename_from_url("http://h/a/b%20c.zip?x=/1#y"), "b c.zip");
    assert_eq!(filename_from_url("http://h/a/%FF"), "\u{fffd}");
    assert_eq!(filename_from_url("http://h/a/100%"), "100%");
    assert_eq!(filename_from_url("http://h/"), "download");
    assert_eq!(filename_from_url("http://h/x#a/b?c"), "x");
    assert_eq!(last_url_segment("http://h/p%41th?q"), "p%41th");
    assert_eq!(or_default_name(String::new()), "download");
    assert_eq!(or_default_name("n".into()), "n");
}
