use tg_snatch::cli::FileTypeFilter;
use tg_snatch::commands::{
    check_extension_filters, check_token, download_candidates, filter_by_extensions,
    filter_by_ids, list_files, selection, RequestError, Selection, TokenError,
};
use tg_snatch::files::catalog::FileEntry;
use tg_snatch::files::filter::{DateError, FileType};
use tg_snatch::storage::db::Database;

fn entry(uid: &str, name: Option<&str>, file_type: FileType, chat_id: i64, date: i64) -> FileEntry {
    FileEntry {
        file_id: format!("fid_{}", uid),
        file_unique_id: uid.to_string(),
        file_type,
        file_name: name.map(|s| s.to_string()),
        file_size: Some(1),
        mime_type: None,
        chat_id,
        message_id: 1,
        date,
        caption: None,
        downloaded: false,
    }
}

fn uids(v: &[FileEntry]) -> Vec<String> {
    v.iter().map(|e| e.file_unique_id.clone()).collect()
}

#[test]
fn token_checks() {
    assert_eq!(check_token(None), Err(TokenError::Missing));
    assert_eq!(check_token(Some("abc".to_string())), Err(TokenError::InvalidFormat));
    assert_eq!(check_token(Some("123:ABC_-x".to_string())), Ok("123:ABC_-x".to_string()));
}

#[test]
fn extension_filters_conflict() {
    let some = vec!["pdf".to_string()];
    let none: Vec<String> = vec![];
    assert!(check_extension_filters(&some, &none).is_ok());
    assert!(check_extension_filters(&none, &some).is_ok());
    assert!(check_extension_filters(&none, &none).is_ok());
    assert_eq!(
        check_extension_filters(&some, &some),
        Err(RequestError::ConflictingExtensionFilters)
    );
}

#[test]
fn selection_rules() {
    assert_eq!(selection(true, false, false), Ok(Selection::Interactive));
    assert_eq!(selection(true, true, true), Ok(Selection::Interactive));
    assert_eq!(selection(false, true, false), Ok(Selection::Everything));
    assert_eq!(selection(false, false, true), Ok(Selection::Everything));
    assert_eq!(selection(false, false, false), Err(RequestError::NoSelection));
}

#[test]
fn ids_match_unique_id_or_file_id() {
    let files = vec![
        entry("a", None, FileType::Pdf, 1, 1),
        entry("b", None, FileType::Pdf, 1, 2),
        entry("c", None, FileType::Pdf, 1, 3),
    ];
    let ids = vec!["a".to_string(), "fid_c".to_string()];
    assert_eq!(uids(&filter_by_ids(files, &ids)), vec!["a", "c"]);
}

#[test]
fn extension_filters_compare_in_lower_case() {
    let files = vec![
        entry("a", Some("Report.PDF"), FileType::Pdf, 1, 1),
        entry("b", Some("photo.jpg"), FileType::Image, 1, 2),
        entry("c", None, FileType::Pdf, 1, 3),
        entry("d", Some("pdf"), FileType::Document, 1, 4),
    ];
    let exts = vec!["Pdf".to_string()];
    let kept = filter_by_extensions(files.iter().map(|f| f.clone()).collect(), &exts, true);
    assert_eq!(uids(&kept), vec!["a", "c"]);
    let dropped = filter_by_extensions(files, &exts, false);
    assert_eq!(uids(&dropped), vec!["b", "d"]);
}

#[test]
fn include_and_exclude_split_the_files() {
    let files = vec![
        entry("a", Some("x.mp4"), FileType::Video, 1, 1),
        entry("b", Some("y.MP4"), FileType::Video, 1, 2),
        entry("c", Some("z.mkv"), FileType::Video, 1, 3),
    ];
    let exts = vec!["mp4".to_string(), "webm".to_string()];
    let inc = filter_by_extensions(files.clone(), &exts, true);
    let exc = filter_by_extensions(files.clone(), &exts, false);
    assert_eq!(inc.len() + exc.len(), files.len());
    assert_eq!(uids(&inc), vec!["a", "b"]);
    assert_eq!(uids(&exc), vec!["c"]);
}

fn sample_db() -> Database {
    let mut db = Database::open_in_memory().unwrap();
    db.insert_file(&entry("p1", Some("one.pdf"), FileType::Pdf, -1, 1704067200)).unwrap();
    db.insert_file(&entry("p2", Some("two.pdf"), FileType::Pdf, -1, 1704153600)).unwrap();
    db.insert_file(&entry("v1", Some("clip.mp4"), FileType::Video, -1, 1704240000)).unwrap();
    db.insert_file(&entry("o1", Some("other.pdf"), FileType::Pdf, -2, 1704326400)).unwrap();
    db.mark_downloaded("p2").unwrap();
    db
}

#[test]
fn download_candidates_pending_of_a_chat() {
    let db = sample_db();
    let none: Vec<String> = vec![];
    let v = download_candidates(&db, Some(-1), None, false, &none, &none, &none, None, None, false)
        .unwrap();
    assert_eq!(uids(&v), vec!["v1", "p1"]);
    let v = download_candidates(&db, Some(-1), None, true, &none, &none, &none, None, None, false)
        .unwrap();
    assert_eq!(uids(&v), vec!["v1", "p2", "p1"]);
    let v = download_candidates(
        &db,
        Some(-1),
        Some(FileTypeFilter::Pdf),
        true,
        &none,
        &none,
        &none,
        None,
        None,
        false,
    )
    .unwrap();
    assert_eq!(uids(&v), vec!["p2", "p1"]);
}

#[test]
fn download_candidates_by_ids_ignore_chat_and_state() {
    let db = sample_db();
    let none: Vec<String> = vec![];
    let ids = vec!["p2".to_string(), "fid_o1".to_string()];
    let v = download_candidates(&db, Some(-1), None, false, &ids, &none, &none, None, None, false)
        .unwrap();
    assert_eq!(uids(&v), vec!["o1", "p2"]);
}

#[test]
fn download_candidates_extension_dates_and_order() {
    let db = sample_db();
    let none: Vec<String> = vec![];
    let inc = vec!["pdf".to_string()];
    let v = download_candidates(&db, None, None, true, &none, &inc, &none, None, None, false)
        .unwrap();
    assert_eq!(uids(&v), vec!["o1", "p2", "p1"]);
    let exc = vec!["pdf".to_string()];
    let v = download_candidates(&db, None, None, true, &none, &none, &exc, None, None, false)
        .unwrap();
    assert_eq!(uids(&v), vec!["v1"]);
    let v = download_candidates(
        &db,
        None,
        None,
        true,
        &none,
        &none,
        &none,
        Some("2024-01-02"),
        Some("2024-01-03"),
        true,
    )
    .unwrap();
    assert_eq!(uids(&v), vec!["v1", "p2"]);
    let r = download_candidates(&db, None, None, true, &none, &none, &none, Some("nope"), None, false);
    match r {
        Err(DateError::InvalidFormat(t)) => assert_eq!(t, "nope"),
        Ok(_) => panic!("a bad date must be refused"),
    }
}

#[test]
fn list_files_applies_limit_then_dates() {
    let db = sample_db();
    let v = list_files(&db, None, None, 2, None, None).unwrap();
    assert_eq!(uids(&v), vec!["o1", "v1"]);
    let v = list_files(&db, Some(-1), None, 50, Some("2024-01-02"), None).unwrap();
    assert_eq!(uids(&v), vec!["v1", "p2"]);
    assert!(matches!(
        list_files(&db, None, None, 50, None, Some("2024-13-01")),
        Err(DateError::InvalidFormat(_))
    ));
}
