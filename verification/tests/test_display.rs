use tg_snatch::files::catalog::FileEntry;
use tg_snatch::files::filter::FileType;
use tg_snatch::ui::display::table_row;
use tg_snatch::ui::progress::{spinner_style, SpinnerType};
use tg_snatch::ui::selector::{picked, selection_label};

fn entry(uid: &str, name: Option<&str>, file_type: FileType, size: Option<u64>) -> FileEntry {
    FileEntry {
        file_id: "f".to_string(),
        file_unique_id: uid.to_string(),
        file_type,
        file_name: name.map(|s| s.to_string()),
        file_size: size,
        mime_type: None,
        chat_id: 1,
        message_id: 1,
        date: 1700000000,
        caption: None,
        downloaded: false,
    }
}

#[test]
fn table_row_fields() {
    let e = entry("u", Some("report.pdf"), FileType::Pdf, Some(1536));
    let r = table_row(0, &e);
    assert_eq!(r.number, "1");
    assert_eq!(r.kind, "PDF");
    assert_eq!(r.name, "report.pdf");
    assert_eq!(r.size, "1.5 KB");
    assert_eq!(r.date, "2023-11-14 22:13");
    assert_eq!(r.status, "pending");
}

#[test]
fn table_row_cuts_long_names_and_marks_downloaded() {
    let long = "a".repeat(50);
    let mut e = entry("u", Some(&long), FileType::Animation, None);
    e.downloaded = true;
    let r = table_row(9, &e);
    assert_eq!(r.number, "10");
    assert_eq!(r.kind, "GIF");
    assert_eq!(r.name, format!("{}…", "a".repeat(34)));
    assert_eq!(r.size, "unknown");
    assert_eq!(r.status, "downloaded");
}

#[test]
fn table_row_date_out_of_range_is_unknown() {
    let mut e = entry("u", None, FileType::Document, None);
    e.date = i64::MAX;
    assert_eq!(table_row(0, &e).date, "unknown");
}

#[test]
fn selection_labels() {
    let e = entry("u", Some("clip.mp4"), FileType::Video, Some(5 * 1024 * 1024));
    assert_eq!(selection_label(&e), "[VIDEO] clip.mp4 (5.0 MB)");
    let e = entry("xyz", None, FileType::Image, None);
    assert_eq!(selection_label(&e), "[IMAGE] xyz.jpg (unknown)");
}

#[test]
fn picked_follows_the_chosen_positions() {
    let files = vec![
        entry("a", None, FileType::Pdf, None),
        entry("b", None, FileType::Pdf, None),
        entry("c", None, FileType::Pdf, None),
    ];
    let got = picked(&files, &vec![2, 0]);
    let ids: Vec<&str> = got.iter().map(|e| e.file_unique_id.as_str()).collect();
    assert_eq!(ids, vec!["c", "a"]);
    assert!(picked(&files, &vec![]).is_empty());
}

#[test]
fn spinner_presets() {
    assert_eq!(spinner_style(SpinnerType::Watch), ("{spinner:.green} {msg}", 100));
    assert_eq!(spinner_style(SpinnerType::Connect), ("{spinner:.cyan} {msg}", 80));
    assert_eq!(spinner_style(SpinnerType::Process), ("{spinner:.blue} {msg}", 120));
}
