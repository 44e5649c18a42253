use tg_snatch::files::catalog::FileEntry;
use tg_snatch::files::downloader::{
    after_curl, after_retry, build_output_path, curl_args, plan_start, resolve_fetch,
    retry_args, run_marks, should_skip, tally, truncate_name, AfterCurl, DownloadError, Start,
};
use tg_snatch::files::filter::FileType;
use tg_snatch::security::{join_path, safe_output_path};
use tg_snatch::telegram::client::TelegramClient;

fn entry(name: Option<&str>, file_type: FileType, size: Option<u64>) -> FileEntry {
    FileEntry {
        file_id: "fid".to_string(),
        file_unique_id: "uniq".to_string(),
        file_type,
        file_name: name.map(|s| s.to_string()),
        file_size: size,
        mime_type: None,
        chat_id: -100,
        message_id: 7,
        date: 1700000000,
        caption: None,
        downloaded: false,
    }
}

#[test]
fn join_path_inserts_one_separator() {
    assert_eq!(join_path("downloads", "pdfs"), "downloads/pdfs");
    assert_eq!(join_path("downloads/", "pdfs"), "downloads/pdfs");
    assert_eq!(join_path("", "pdfs"), "pdfs");
    assert_eq!(join_path("downloads", "/etc"), "/etc");
}

#[test]
fn safe_output_path_keeps_the_sanitized_name() {
    assert_eq!(safe_output_path("out", "pdfs", "../../etc/passwd"), "out/pdfs/passwd");
    assert_eq!(safe_output_path("out", "pdfs", "report.pdf"), "out/pdfs/report.pdf");
    assert_eq!(safe_output_path("out", "pdfs", "a..b.pdf"), "out/pdfs/a..b.pdf");
    assert_eq!(safe_output_path("out", "pdfs", ".."), "out/pdfs/unnamed");
}

#[test]
fn safe_output_path_under_a_relative_parent_keeps_each_name() {
    // The output directory itself may lie above the working directory; each
    // file still keeps its own name inside it.
    assert_eq!(safe_output_path("../out", "pdfs", "report.pdf"), "../out/pdfs/report.pdf");
    assert_eq!(safe_output_path("../out", "pdfs", "other.pdf"), "../out/pdfs/other.pdf");
}

#[test]
fn build_output_path_uses_kind_directory_and_display_name() {
    let e = entry(Some("Report.PDF"), FileType::Pdf, Some(10));
    assert_eq!(build_output_path("downloads", &e), "downloads/pdfs/Report.PDF");
    let e = entry(None, FileType::Voice, None);
    assert_eq!(build_output_path("dl", &e), "dl/voice/uniq.ogg");
}

#[test]
fn run_marks_only_fetched_files() {
    let ids = vec!["a".to_string(), "b".to_string(), "c".to_string(), "d".to_string()];
    let skipped = vec![false, true, false, false];
    let fetched = vec![true, false, false, true];
    assert_eq!(run_marks(false, &ids, &skipped, &fetched), vec!["a", "d"]);
    assert!(run_marks(true, &ids, &skipped, &fetched).is_empty());
}

#[test]
fn resolve_fetch_builds_https_file_url() {
    let api = TelegramClient::new("123:abc".to_string());
    let e = entry(Some("a.pdf"), FileType::Pdf, Some(99));
    let f = resolve_fetch(&api, Some("documents/file_1.pdf".to_string()), Some(120), &e).unwrap();
    assert_eq!(f.url, "https://api.telegram.org/file/bot123:abc/documents/file_1.pdf");
    assert_eq!(f.total_size, Some(120));
    let f = resolve_fetch(&api, Some("p".to_string()), None, &e).unwrap();
    assert_eq!(f.total_size, Some(99));
}

#[test]
fn resolve_fetch_without_path_is_an_error() {
    let api = TelegramClient::new("123:abc".to_string());
    let e = entry(Some("a.pdf"), FileType::Pdf, Some(99));
    assert!(matches!(resolve_fetch(&api, None, Some(1), &e), Err(DownloadError::NoFilePath)));
}

#[test]
fn skip_only_with_flag_and_equal_size() {
    assert!(should_skip(true, Some(10), Some(10)));
    assert!(!should_skip(false, Some(10), Some(10)));
    assert!(!should_skip(true, Some(9), Some(10)));
    assert!(!should_skip(true, None, Some(10)));
    assert!(!should_skip(true, Some(10), None));
}

#[test]
fn plan_start_cases() {
    assert!(matches!(plan_start(true, Some(5), Some(10)), Err(DownloadError::SymlinkTarget)));
    assert_eq!(plan_start(false, None, Some(10)).unwrap(), Start::Fresh);
    assert_eq!(plan_start(false, Some(4), Some(10)).unwrap(), Start::Resume(4));
    assert_eq!(plan_start(false, Some(10), Some(10)).unwrap(), Start::Complete(10));
    assert_eq!(plan_start(false, Some(12), Some(10)).unwrap(), Start::Complete(10));
    assert_eq!(plan_start(false, Some(12), None).unwrap(), Start::Resume(12));
}

#[test]
fn curl_arguments_are_hardened() {
    let a = curl_args("https://x/y", "out/f.pdf", false);
    let expected: Vec<&str> = vec![
        "-L", "-f", "-s", "--proto", "=https", "--max-redirs", "5", "--connect-timeout", "30",
        "--max-time", "3600", "--retry", "3", "--retry-delay", "2", "-o", "out/f.pdf",
        "https://x/y",
    ];
    assert_eq!(a, expected);
    let a = curl_args("https://x/y", "o", true);
    assert_eq!(&a[a.len() - 3..], &["-C", "-", "https://x/y"]);
    let r = retry_args("https://x/y", "o");
    let expected: Vec<&str> = vec![
        "-L", "-f", "-s", "--proto", "=https", "--max-redirs", "5", "--connect-timeout", "30",
        "--max-time", "3600", "-o", "o", "https://x/y",
    ];
    assert_eq!(r, expected);
}

#[test]
fn curl_exit_status_decisions() {
    assert_eq!(after_curl(true, Some(0), true), AfterCurl::Done);
    assert_eq!(after_curl(false, Some(33), true), AfterCurl::RetryWithoutResume);
    assert_eq!(after_curl(false, Some(33), false), AfterCurl::Failed(33));
    assert_eq!(after_curl(false, Some(22), true), AfterCurl::Failed(22));
    assert_eq!(after_curl(false, None, true), AfterCurl::Failed(-1));
    assert!(after_retry(true, Some(0)).is_ok());
    assert!(matches!(after_retry(false, Some(7)), Err(DownloadError::CurlFailed(7))));
    assert!(matches!(after_retry(false, None), Err(DownloadError::CurlFailed(-1))));
}

#[test]
fn tally_counts_outcomes() {
    let t = tally(&vec![true, false, true, true]);
    assert_eq!(t.succeeded, 3);
    assert_eq!(t.failed, 1);
    let t = tally(&vec![]);
    assert_eq!((t.succeeded, t.failed), (0, 0));
}

#[test]
fn truncate_name_cuts_with_ellipsis() {
    assert_eq!(truncate_name("short.pdf", 40), "short.pdf");
    assert_eq!(truncate_name("abcdefghij", 10), "abcdefghij");
    assert_eq!(truncate_name("abcdefghijk", 10), "abcdefghi…");
}
