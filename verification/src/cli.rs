//! The command line: global options and the commands that act on the index.
use vstd::prelude::*;

use crate::files::filter::{kind_name, FileType};

verus! {

/// The parsed command line.
pub struct Cli {
    /// Telegram Bot API token.
    pub token: Option<String>,
    /// Output directory for downloads (`./downloads` unless given).
    pub output_dir: String,
    /// More output.
    pub verbose: bool,
    /// The command; none starts the interactive setup.
    pub command: Option<Command>,
}

/// The commands.
pub enum Command {
    /// Interactive guided setup.
    Setup,
    /// Show bot info and connection status.
    Info,
    /// Poll a chat or channel for new files and index them.
    Watch { chat_id: i64, continuous: bool, duration: Option<u64> },
    /// List indexed files.
    List {
        chat_id: Option<i64>,
        file_type: Option<FileTypeFilter>,
        limit: usize,
        after: Option<String>,
        before: Option<String>,
    },
    /// Download files.
    Download {
        chat_id: Option<i64>,
        file_type: Option<FileTypeFilter>,
        all: bool,
        interactive: bool,
        parallel: usize,
        file_id: Vec<String>,
        skip_same: bool,
        include_ext: Vec<String>,
        exclude_ext: Vec<String>,
        dry_run: bool,
        desc: bool,
        after: Option<String>,
        before: Option<String>,
    },
    /// Export indexed files to JSON.
    Export { chat_id: Option<i64>, file_type: Option<FileTypeFilter>, output: Option<String> },
}

/// The kind of file a command is restricted to; `All` admits every kind.
#[derive(Clone, Copy, Debug, PartialEq, Eq, Structural)]
pub enum FileTypeFilter {
    Pdf,
    Image,
    Video,
    Audio,
    Document,
    Animation,
    Voice,
    All,
}

/// Whether a filter admits files of kind `t`.
pub open spec fn admits(f: FileTypeFilter, t: FileType) -> bool {
    match f {
        FileTypeFilter::Pdf => t == FileType::Pdf,
        FileTypeFilter::Image => t == FileType::Image,
        FileTypeFilter::Video => t == FileType::Video,
        FileTypeFilter::Audio => t == FileType::Audio,
        FileTypeFilter::Document => t == FileType::Document,
        FileTypeFilter::Animation => t == FileType::Animation,
        FileTypeFilter::Voice => t == FileType::Voice,
        FileTypeFilter::All => true,
    }
}

impl FileTypeFilter {
    /// Whether the filter admits files of kind `t`.
    pub fn admits(&self, t: FileType) -> (r: bool)
        ensures
            r == admits(*self, t),
    {
        match self {
            FileTypeFilter::Pdf => t == FileType::Pdf,
            FileTypeFilter::Image => t == FileType::Image,
            FileTypeFilter::Video => t == FileType::Video,
            FileTypeFilter::Audio => t == FileType::Audio,
            FileTypeFilter::Document => t == FileType::Document,
            FileTypeFilter::Animation => t == FileType::Animation,
            FileTypeFilter::Voice => t == FileType::Voice,
            FileTypeFilter::All => true,
        }
    }
}

/// The stored kind name that a filter selects, as the query compares it with
/// each row's kind (`--type video` selects rows stored as `video`); `All`
/// selects no single kind.
pub open spec fn filter_kind_name(f: FileTypeFilter) -> Option<Seq<char>> {
    match f {
        FileTypeFilter::Pdf => Some("pdf"@),
        FileTypeFilter::Image => Some("image"@),
        FileTypeFilter::Video => Some("video"@),
        FileTypeFilter::Audio => Some("audio"@),
        FileTypeFilter::Document => Some("document"@),
        FileTypeFilter::Animation => Some("animation"@),
        FileTypeFilter::Voice => Some("voice"@),
        FileTypeFilter::All => None,
    }
}

/// A kind filter admits exactly the files whose stored kind name is the
/// filter's name, so a filter other than `All` admits one kind and no other;
/// `All` admits every kind.
pub proof fn lemma_filter_admits_its_kind(f: FileTypeFilter, t: FileType)
    ensures
        admits(f, t) <==> match filter_kind_name(f) {
            Some(n) => kind_name(t) == n,
            None => true,
        },
{
    reveal_strlit("pdf");
    reveal_strlit("image");
    reveal_strlit("video");
    reveal_strlit("audio");
    reveal_strlit("document");
    reveal_strlit("animation");
    reveal_strlit("voice");
    let p = kind_name(FileType::Pdf);
    let i = kind_name(FileType::Image);
    let v = kind_name(FileType::Video);
    let a = kind_name(FileType::Audio);
    let d = kind_name(FileType::Document);
    let n = kind_name(FileType::Animation);
    let o = kind_name(FileType::Voice);
    assert(p.len() == 3 && i.len() == 5 && v.len() == 5 && a.len() == 5 && d.len() == 8
        && n.len() == 9 && o.len() == 5);
    assert(i[0] != v[0] && i[0] != a[0] && i[0] != o[0]);
    assert(v[0] != a[0] && v[1] != o[1] && a[0] != o[0]);
    assert(p == "pdf"@ && i == "image"@ && v == "video"@ && a == "audio"@ && d == "document"@
        && n == "animation"@ && o == "voice"@);
}

} // verus!
