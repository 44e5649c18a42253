//! What the file table shows for each file. Colours and printing are the
//! caller's.
use vstd::prelude::*;

use crate::files::catalog::{opt_view, raw_name, size_text, FileEntry};
use crate::files::downloader::{truncate_defined, truncate_name, truncated};
use crate::files::filter::FileType;
use crate::security::sanitized;
use crate::text::{decimal, u64_to_decimal};

verus! {

/// The short kind label of the table.
pub open spec fn table_kind(t: FileType) -> Seq<char> {
    match t {
        FileType::Pdf => "PDF"@,
        FileType::Image => "IMAGE"@,
        FileType::Video => "VIDEO"@,
        FileType::Audio => "AUDIO"@,
        FileType::Document => "DOC"@,
        FileType::Animation => "GIF"@,
        FileType::Voice => "VOICE"@,
    }
}

/// `YYYY-MM-DD HH:MM` (UTC) of a Unix timestamp, as chrono formats it;
/// `None` where chrono has no date for the timestamp.
pub uninterp spec fn minute_stamp(ts: int) -> Option<Seq<char>>;

/// Calls chrono's `DateTime::from_timestamp(ts, 0)` and formats the result
/// with `%Y-%m-%d %H:%M`. Claimed: the result is `minute_stamp(ts)`.
#[verifier::external_body]
fn format_minute(ts: i64) -> (r: Option<String>)
    ensures
        opt_view(r) == minute_stamp(ts as int),
{
    match chrono::DateTime::from_timestamp(ts, 0) {
        Some(dt) => Some(dt.format("%Y-%m-%d %H:%M").to_string()),
        None => None,
    }
}

/// One line of the file table.
pub struct TableRow {
    /// The position, counted from 1.
    pub number: String,
    pub kind: String,
    /// The display name, cut to 35 bytes.
    pub name: String,
    pub size: String,
    /// `YYYY-MM-DD HH:MM`, or `unknown`.
    pub date: String,
    /// `downloaded` or `pending`.
    pub status: String,
}

/// The row can be built: the display name can be cut to 35 bytes.
pub open spec fn row_defined(e: crate::files::catalog::EntryView) -> bool {
    truncate_defined(sanitized(raw_name(e)), 35)
}

/// The table line of the `index`-th file (from 0).
pub fn table_row(index: usize, file: &FileEntry) -> (r: TableRow)
    requires
        row_defined(file@),
        index < usize::MAX,
    ensures
        r.number@ == decimal(index as nat + 1),
        r.kind@ == table_kind(file.file_type),
        r.name@ == truncated(sanitized(raw_name(file@)), 35),
        r.size@ == match file.file_size {
            Some(b) => size_text(b as nat),
            None => "unknown"@,
        },
        r.date@ == match minute_stamp(file.date as int) {
            Some(d) => d,
            None => "unknown"@,
        },
        r.status@ == if file.downloaded {
            "downloaded"@
        } else {
            "pending"@
        },
{
    let kind = match file.file_type {
        FileType::Pdf => "PDF",
        FileType::Image => "IMAGE",
        FileType::Video => "VIDEO",
        FileType::Audio => "AUDIO",
        FileType::Document => "DOC",
        FileType::Animation => "GIF",
        FileType::Voice => "VOICE",
    };
    let name = file.display_name();
    let size = file.display_size();
    proof {
        reveal_strlit("unknown");
    }
    assert(size@ == match file.file_size {
        Some(b) => size_text(b as nat),
        None => "unknown"@,
    });
    let date = match format_minute(file.date) {
        Some(d) => d,
        None => String::from_str("unknown"),
    };
    let status = if file.downloaded {
        String::from_str("downloaded")
    } else {
        String::from_str("pending")
    };
    TableRow {
        number: u64_to_decimal(index as u64 + 1),
        kind: String::from_str(kind),
        name: truncate_name(name.as_str(), 35),
        size,
        date,
        status,
    }
}

} // verus!
