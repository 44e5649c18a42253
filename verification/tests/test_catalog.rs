use tg_snatch::files::catalog::{format_size, FileEntry};
use tg_snatch::files::filter::FileType;

fn make_entry(file_type: FileType, name: Option<&str>, size: Option<u64>) -> FileEntry {
    FileEntry {
        file_id: "fid_test".to_string(),
        file_unique_id: "uid_test".to_string(),
        file_type,
        file_name: name.map(|s| s.to_string()),
        file_size: size,
        mime_type: None,
        chat_id: -100,
        message_id: 1,
        date: 1700000000,
        caption: None,
        downloaded: false,
    }
}

#[test]
fn display_name_with_filename() {
    let entry = make_entry(FileType::Pdf, Some("report.pdf"), Some(1024));
    assert_eq!(entry.display_name(), "report.pdf");
}

#[test]
fn display_name_fallback_uses_unique_id_and_ext() {
    let entry = make_entry(FileType::Pdf, None, None);
    assert_eq!(entry.display_name(), "uid_test.pdf");

    let entry = make_entry(FileType::Image, None, None);
    assert_eq!(entry.display_name(), "uid_test.jpg");

    let entry = make_entry(FileType::Video, None, None);
    assert_eq!(entry.display_name(), "uid_test.mp4");

    let entry = make_entry(FileType::Audio, None, None);
    assert_eq!(entry.display_name(), "uid_test.mp3");

    let entry = make_entry(FileType::Document, None, None);
    assert_eq!(entry.display_name(), "uid_test.bin");

    let entry = make_entry(FileType::Animation, None, None);
    assert_eq!(entry.display_name(), "uid_test.gif");

    let entry = make_entry(FileType::Voice, None, None);
    assert_eq!(entry.display_name(), "uid_test.ogg");
}

#[test]
fn display_size_formats_bytes() {
    let entry = make_entry(FileType::Pdf, None, Some(500));
    assert_eq!(entry.display_size(), "500 B");
}

#[test]
fn display_size_formats_kilobytes() {
    let entry = make_entry(FileType::Pdf, None, Some(2048));
    assert_eq!(entry.display_size(), "2.0 KB");
}

#[test]
fn display_size_formats_megabytes() {
    let entry = make_entry(FileType::Pdf, None, Some(5 * 1024 * 1024));
    assert_eq!(entry.display_size(), "5.0 MB");
}

#[test]
fn display_size_formats_gigabytes() {
    let entry = make_entry(FileType::Pdf, None, Some(2 * 1024 * 1024 * 1024));
    assert_eq!(entry.display_size(), "2.0 GB");
}

#[test]
fn display_size_unknown_when_none() {
    let entry = make_entry(FileType::Pdf, None, None);
    assert_eq!(entry.display_size(), "unknown");
}

fn float_format(bytes: u64) -> String {
    const KB: u64 = 1024;
    const MB: u64 = KB * 1024;
    const GB: u64 = MB * 1024;
    if bytes >= GB {
        format!("{:.1} GB", bytes as f64 / GB as f64)
    } else if bytes >= MB {
        format!("{:.1} MB", bytes as f64 / MB as f64)
    } else if bytes >= KB {
        format!("{:.1} KB", bytes as f64 / KB as f64)
    } else {
        format!("{} B", bytes)
    }
}

#[test]
fn format_size_agrees_with_float_formatting() {
    let mut samples: Vec<u64> = (0..5000).collect();
    samples.extend([1280, 1331, 1536, 10239, 10240, 1048575, 1048576, 1310720, 1073741823]);
    samples.extend([1073741824, 1342177280, 5 * 1024 * 1024 * 1024 + 107374182]);
    for k in 50..64 {
        let p = 1u64 << k;
        samples.extend([p - 1, p, p + 1, p + (1 << 30) * 3 / 20]);
    }
    samples.push(u64::MAX);
    samples.push(u64::MAX - 1024);
    for b in samples {
        assert_eq!(format_size(b), float_format(b), "bytes = {}", b);
    }
}

#[test]
fn display_name_is_sanitized() {
    let entry = make_entry(FileType::Pdf, Some("../../etc/passwd"), None);
    assert_eq!(entry.display_name(), "passwd");
    let entry = make_entry(FileType::Image, Some("..."), None);
    assert_eq!(entry.display_name(), "unnamed");
}

#[test]
fn duplicate_keeps_every_field() {
    let entry = make_entry(FileType::Video, Some("clip.mp4"), Some(7));
    let copy = entry.duplicate();
    assert_eq!(copy.file_id, entry.file_id);
    assert_eq!(copy.file_name, entry.file_name);
    assert_eq!(copy.file_size, entry.file_size);
    assert_eq!(copy.file_type, entry.file_type);
}
