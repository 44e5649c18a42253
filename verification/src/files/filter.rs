//! Kinds of files, the classification of message attachments, and filtering
//! by date.
use vstd::prelude::*;

use crate::files::catalog::{copy_opt, opt_view, EntryView, FileEntry};
use crate::telegram::types::Message;

verus! {

/// The kinds of file that the index distinguishes.
#[derive(Debug, Clone, Copy, PartialEq, Eq, Structural)]
pub enum FileType {
    Pdf,
    Image,
    Video,
    Audio,
    Document,
    Animation,
    Voice,
}

/// The name under which a kind is stored in the index.
pub open spec fn kind_name(t: FileType) -> Seq<char> {
    match t {
        FileType::Pdf => seq!['p', 'd', 'f'],
        FileType::Image => seq!['i', 'm', 'a', 'g', 'e'],
        FileType::Video => seq!['v', 'i', 'd', 'e', 'o'],
        FileType::Audio => seq!['a', 'u', 'd', 'i', 'o'],
        FileType::Document => seq!['d', 'o', 'c', 'u', 'm', 'e', 'n', 't'],
        FileType::Animation => seq!['a', 'n', 'i', 'm', 'a', 't', 'i', 'o', 'n'],
        FileType::Voice => seq!['v', 'o', 'i', 'c', 'e'],
    }
}

/// The kind stored under `name`, if any.
pub open spec fn kind_of_name(name: Seq<char>) -> Option<FileType> {
    if name == kind_name(FileType::Pdf) {
        Some(FileType::Pdf)
    } else if name == kind_name(FileType::Image) {
        Some(FileType::Image)
    } else if name == kind_name(FileType::Video) {
        Some(FileType::Video)
    } else if name == kind_name(FileType::Audio) {
        Some(FileType::Audio)
    } else if name == kind_name(FileType::Document) {
        Some(FileType::Document)
    } else if name == kind_name(FileType::Animation) {
        Some(FileType::Animation)
    } else if name == kind_name(FileType::Voice) {
        Some(FileType::Voice)
    } else {
        None
    }
}

/// ASCII upper case of `s`.
pub open spec fn ascii_upper(s: Seq<char>) -> Seq<char> {
    s.map_values(|c: char| if 'a' <= c <= 'z' { ((c as u32) - 32) as char } else { c })
}

/// The directory under the output directory that holds files of a kind.
pub open spec fn subdir_name(t: FileType) -> Seq<char> {
    match t {
        FileType::Pdf => seq!['p', 'd', 'f', 's'],
        FileType::Image => seq!['i', 'm', 'a', 'g', 'e', 's'],
        FileType::Video => seq!['v', 'i', 'd', 'e', 'o', 's'],
        FileType::Audio => seq!['a', 'u', 'd', 'i', 'o'],
        FileType::Document => seq!['d', 'o', 'c', 'u', 'm', 'e', 'n', 't', 's'],
        FileType::Animation => seq!['a', 'n', 'i', 'm', 'a', 't', 'i', 'o', 'n', 's'],
        FileType::Voice => seq!['v', 'o', 'i', 'c', 'e'],
    }
}

impl FileType {
    /// The name under which the kind is stored in the index.
    pub fn as_str(&self) -> (r: &'static str)
        ensures
            r@ == kind_name(*self),
    {
        match self {
            FileType::Pdf => {
                proof {
                    reveal_strlit("pdf");
                }
                "pdf"
            },
            FileType::Image => {
                proof {
                    reveal_strlit("image");
                }
                "image"
            },
            FileType::Video => {
                proof {
                    reveal_strlit("video");
                }
                "video"
            },
            FileType::Audio => {
                proof {
                    reveal_strlit("audio");
                }
                "audio"
            },
            FileType::Document => {
                proof {
                    reveal_strlit("document");
                }
                "document"
            },
            FileType::Animation => {
                proof {
                    reveal_strlit("animation");
                }
                "animation"
            },
            FileType::Voice => {
                proof {
                    reveal_strlit("voice");
                }
                "voice"
            },
        }
    }

    /// The kind stored under `s` in the index; names are case-sensitive.
    pub fn from_db(s: &str) -> (r: Option<FileType>)
        ensures
            r == kind_of_name(s@),
    {
        let all = [
            FileType::Pdf,
            FileType::Image,
            FileType::Video,
            FileType::Audio,
            FileType::Document,
            FileType::Animation,
            FileType::Voice,
        ];
        let mut i: usize = 0;
        while i < 7
            invariant
                i <= 7,
                all@ == seq![
                    FileType::Pdf,
                    FileType::Image,
                    FileType::Video,
                    FileType::Audio,
                    FileType::Document,
                    FileType::Animation,
                    FileType::Voice,
                ],
                forall|k: int| 0 <= k < i ==> s@ != kind_name(#[trigger] all@[k]),
            decreases 7 - i,
        {
            let t = all[i];
            if crate::text::str_eq(s, t.as_str()) {
                return Some(t);
            }
            i = i + 1;
        }
        assert(s@ != kind_name(all@[0]));
        assert(s@ != kind_name(all@[1]));
        assert(s@ != kind_name(all@[2]));
        assert(s@ != kind_name(all@[3]));
        assert(s@ != kind_name(all@[4]));
        assert(s@ != kind_name(all@[5]));
        assert(s@ != kind_name(all@[6]));
        None
    }

    /// The directory, under the output directory, for files of this kind.
    pub fn subdir(&self) -> (r: &'static str)
        ensures
            r@ == subdir_name(*self),
    {
        match self {
            FileType::Pdf => {
                proof {
                    reveal_strlit("pdfs");
                }
                "pdfs"
            },
            FileType::Image => {
                proof {
                    reveal_strlit("images");
                }
                "images"
            },
            FileType::Video => {
                proof {
                    reveal_strlit("videos");
                }
                "videos"
            },
            FileType::Audio => {
                proof {
                    reveal_strlit("audio");
                }
                "audio"
            },
            FileType::Document => {
                proof {
                    reveal_strlit("documents");
                }
                "documents"
            },
            FileType::Animation => {
                proof {
                    reveal_strlit("animations");
                }
                "animations"
            },
            FileType::Voice => {
                proof {
                    reveal_strlit("voice");
                }
                "voice"
            },
        }
    }

    /// How the kind is shown to the user: its stored name in upper case.
    pub fn label(&self) -> (r: &'static str)
        ensures
            r@ == ascii_upper(kind_name(*self)),
    {
        match self {
            FileType::Pdf => {
                proof {
                    reveal_strlit("PDF");
                }
                assert("PDF"@ =~= ascii_upper(kind_name(*self)));
                "PDF"
            },
            FileType::Image => {
                proof {
                    reveal_strlit("IMAGE");
                }
                assert("IMAGE"@ =~= ascii_upper(kind_name(*self)));
                "IMAGE"
            },
            FileType::Video => {
                proof {
                    reveal_strlit("VIDEO");
                }
                assert("VIDEO"@ =~= ascii_upper(kind_name(*self)));
                "VIDEO"
            },
            FileType::Audio => {
                proof {
                    reveal_strlit("AUDIO");
                }
                assert("AUDIO"@ =~= ascii_upper(kind_name(*self)));
                "AUDIO"
            },
            FileType::Document => {
                proof {
                    reveal_strlit("DOCUMENT");
                }
                assert("DOCUMENT"@ =~= ascii_upper(kind_name(*self)));
                "DOCUMENT"
            },
            FileType::Animation => {
                proof {
                    reveal_strlit("ANIMATION");
                }
                assert("ANIMATION"@ =~= ascii_upper(kind_name(*self)));
                "ANIMATION"
            },
            FileType::Voice => {
                proof {
                    reveal_strlit("VOICE");
                }
                assert("VOICE"@ =~= ascii_upper(kind_name(*self)));
                "VOICE"
            },
        }
    }
}

/// A kind survives being stored by name and read back.
pub proof fn lemma_kind_name_roundtrip(t: FileType)
    ensures
        kind_of_name(kind_name(t)) == Some(t),
{
    let p = kind_name(FileType::Pdf);
    let i = kind_name(FileType::Image);
    let v = kind_name(FileType::Video);
    let a = kind_name(FileType::Audio);
    let d = kind_name(FileType::Document);
    let n = kind_name(FileType::Animation);
    assert(p != i && p != v && p != a && p != d && p != n);
    assert(i[0] != v[0] && i != a && i != d && i != n);
    assert(v[0] != a[0] && v[0] != d[0] && v[0] != n[0]);
    assert(a[1] != d[1] && a.len() != n.len());
    assert(d[0] != n[0]);
    assert(kind_name(FileType::Voice) != p && kind_name(FileType::Voice)[0] != i[0]);
    assert(kind_name(FileType::Voice)[1] != v[1] && kind_name(FileType::Voice)[0] != a[0]);
    assert(kind_name(FileType::Voice)[0] != d[0] && kind_name(FileType::Voice)[0] != n[0]);
}

/// The views of a sequence of entries.
pub open spec fn entry_views(s: Seq<FileEntry>) -> Seq<EntryView> {
    s.map_values(|e: FileEntry| e@)
}

/// An entry for one attachment of `msg`, not yet downloaded, carrying the
/// message's chat, id, date and caption.
pub open spec fn attachment_entry(
    msg: Message,
    file_id: Seq<char>,
    file_unique_id: Seq<char>,
    file_type: FileType,
    file_name: Option<Seq<char>>,
    file_size: Option<u64>,
    mime_type: Option<Seq<char>>,
) -> EntryView {
    EntryView {
        file_id,
        file_unique_id,
        file_type,
        file_name,
        file_size,
        mime_type,
        chat_id: msg.chat.id,
        message_id: msg.message_id,
        date: msg.date,
        caption: opt_view(msg.caption),
        downloaded: false,
    }
}

/// A document is a PDF when its MIME type is `application/pdf`.
pub open spec fn document_kind(mime: Option<Seq<char>>) -> FileType {
    if mime == Some("application/pdf"@) {
        FileType::Pdf
    } else {
        FileType::Document
    }
}

/// The name of an audio file: its own, else `<title>.mp3`, else none.
pub open spec fn audio_name(file_name: Option<Seq<char>>, title: Option<Seq<char>>) -> Option<
    Seq<char>,
> {
    match file_name {
        Some(n) => Some(n),
        None => match title {
            Some(t) => Some(t + ".mp3"@),
            None => None,
        },
    }
}

/// The entry for a message's document, if it has one.
pub open spec fn document_part(msg: Message) -> Seq<EntryView> {
    match msg.document {
        Some(d) => seq![
            attachment_entry(
                msg,
                d.file_id@,
                d.file_unique_id@,
                document_kind(opt_view(d.mime_type)),
                opt_view(d.file_name),
                d.file_size,
                opt_view(d.mime_type),
            ),
        ],
        None => Seq::empty(),
    }
}

/// The entry for the largest (last) size of a message's photo, if any.
pub open spec fn photo_part(msg: Message) -> Seq<EntryView> {
    match msg.photo {
        Some(sizes) => if sizes@.len() > 0 {
            let p = sizes@.last();
            seq![
                attachment_entry(
                    msg,
                    p.file_id@,
                    p.file_unique_id@,
                    FileType::Image,
                    None,
                    p.file_size,
                    Some("image/jpeg"@),
                ),
            ]
        } else {
            Seq::empty()
        },
        None => Seq::empty(),
    }
}

/// The entry for a message's video, if it has one.
pub open spec fn video_part(msg: Message) -> Seq<EntryView> {
    match msg.video {
        Some(v) => seq![
            attachment_entry(
                msg,
                v.file_id@,
                v.file_unique_id@,
                FileType::Video,
                opt_view(v.file_name),
                v.file_size,
                opt_view(v.mime_type),
            ),
        ],
        None => Seq::empty(),
    }
}

/// The entry for a message's audio file, if it has one.
pub open spec fn audio_part(msg: Message) -> Seq<EntryView> {
    match msg.audio {
        Some(a) => seq![
            attachment_entry(
                msg,
                a.file_id@,
                a.file_unique_id@,
                FileType::Audio,
                audio_name(opt_view(a.file_name), opt_view(a.title)),
                a.file_size,
                opt_view(a.mime_type),
            ),
        ],
        None => Seq::empty(),
    }
}

/// The entry for a message's voice note, if it has one.
pub open spec fn voice_part(msg: Message) -> Seq<EntryView> {
    match msg.voice {
        Some(v) => seq![
            attachment_entry(
                msg,
                v.file_id@,
                v.file_unique_id@,
                FileType::Voice,
                None,
                v.file_size,
                opt_view(v.mime_type),
            ),
        ],
        None => Seq::empty(),
    }
}

/// The entry for a message's animation, if it has one.
pub open spec fn animation_part(msg: Message) -> Seq<EntryView> {
    match msg.animation {
        Some(a) => seq![
            attachment_entry(
                msg,
                a.file_id@,
                a.file_unique_id@,
                FileType::Animation,
                opt_view(a.file_name),
                a.file_size,
                opt_view(a.mime_type),
            ),
        ],
        None => Seq::empty(),
    }
}

/// The entries that a message yields, in this order: its document (a PDF or
/// a generic document), the largest (last) size of its photo, its video,
/// audio, voice note and animation.
pub open spec fn classified(msg: Message) -> Seq<EntryView> {
    document_part(msg) + photo_part(msg) + video_part(msg) + audio_part(msg) + voice_part(msg)
        + animation_part(msg)
}

fn new_entry(
    msg: &Message,
    file_id: &String,
    file_unique_id: &String,
    file_type: FileType,
    file_name: Option<String>,
    file_size: Option<u64>,
    mime_type: Option<String>,
) -> (e: FileEntry)
    ensures
        e@ == attachment_entry(
            *msg,
            file_id@,
            file_unique_id@,
            file_type,
            opt_view(file_name),
            file_size,
            opt_view(mime_type),
        ),
{
    FileEntry {
        file_id: file_id.clone(),
        file_unique_id: file_unique_id.clone(),
        file_type,
        file_name,
        file_size,
        mime_type,
        chat_id: msg.chat.id,
        message_id: msg.message_id,
        date: msg.date,
        caption: copy_opt(&msg.caption),
        downloaded: false,
    }
}

/// Appends `e` to `entries`, keeping their views in step.
fn push_entry(entries: &mut Vec<FileEntry>, e: FileEntry)
    ensures
        entry_views(final(entries)@) == entry_views(old(entries)@).push(e@),
{
    entries.push(e);
    assert(entry_views(final(entries)@) =~= entry_views(old(entries)@).push(e@));
}

fn add_document(msg: &Message, entries: &mut Vec<FileEntry>)
    ensures
        entry_views(final(entries)@) == entry_views(old(entries)@) + document_part(*msg),
{
    if let Some(doc) = &msg.document {
        let is_pdf = match &doc.mime_type {
            Some(m) => crate::text::str_eq(m.as_str(), "application/pdf"),
            None => false,
        };
        let file_type = if is_pdf {
            FileType::Pdf
        } else {
            FileType::Document
        };
        push_entry(
            entries,
            new_entry(
                msg,
                &doc.file_id,
                &doc.file_unique_id,
                file_type,
                copy_opt(&doc.file_name),
                doc.file_size,
                copy_opt(&doc.mime_type),
            ),
        );
    }
    assert(entry_views(entries@) =~= entry_views(old(entries)@) + document_part(*msg));
}

fn add_photo(msg: &Message, entries: &mut Vec<FileEntry>)
    ensures
        entry_views(final(entries)@) == entry_views(old(entries)@) + photo_part(*msg),
{
    if let Some(photos) = &msg.photo {
        if photos.len() > 0 {
            let photo = &photos[photos.len() - 1];
            push_entry(
                entries,
                new_entry(
                    msg,
                    &photo.file_id,
                    &photo.file_unique_id,
                    FileType::Image,
                    None,
                    photo.file_size,
                    Some(String::from_str("image/jpeg")),
                ),
            );
        }
    }
    assert(entry_views(entries@) =~= entry_views(old(entries)@) + photo_part(*msg));
}

fn add_video(msg: &Message, entries: &mut Vec<FileEntry>)
    ensures
        entry_views(final(entries)@) == entry_views(old(entries)@) + video_part(*msg),
{
    if let Some(video) = &msg.video {
        push_entry(
            entries,
            new_entry(
                msg,
                &video.file_id,
                &video.file_unique_id,
                FileType::Video,
                copy_opt(&video.file_name),
                video.file_size,
                copy_opt(&video.mime_type),
            ),
        );
    }
    assert(entry_views(entries@) =~= entry_views(old(entries)@) + video_part(*msg));
}

fn add_audio(msg: &Message, entries: &mut Vec<FileEntry>)
    ensures
        entry_views(final(entries)@) == entry_views(old(entries)@) + audio_part(*msg),
{
    if let Some(audio) = &msg.audio {
        let name = match &audio.file_name {
            Some(n) => Some(n.clone()),
            None => match &audio.title {
                Some(t) => {
                    let mut n = t.clone();
                    n.append(".mp3");
                    Some(n)
                },
                None => None,
            },
        };
        push_entry(
            entries,
            new_entry(
                msg,
                &audio.file_id,
                &audio.file_unique_id,
                FileType::Audio,
                name,
                audio.file_size,
                copy_opt(&audio.mime_type),
            ),
        );
    }
    assert(entry_views(entries@) =~= entry_views(old(entries)@) + audio_part(*msg));
}

fn add_voice(msg: &Message, entries: &mut Vec<FileEntry>)
    ensures
        entry_views(final(entries)@) == entry_views(old(entries)@) + voice_part(*msg),
{
    if let Some(voice) = &msg.voice {
        push_entry(
            entries,
            new_entry(
                msg,
                &voice.file_id,
                &voice.file_unique_id,
                FileType::Voice,
                None,
                voice.file_size,
                copy_opt(&voice.mime_type),
            ),
        );
    }
    assert(entry_views(entries@) =~= entry_views(old(entries)@) + voice_part(*msg));
}

fn add_animation(msg: &Message, entries: &mut Vec<FileEntry>)
    ensures
        entry_views(final(entries)@) == entry_views(old(entries)@) + animation_part(*msg),
{
    if let Some(anim) = &msg.animation {
        push_entry(
            entries,
            new_entry(
                msg,
                &anim.file_id,
                &anim.file_unique_id,
                FileType::Animation,
                copy_opt(&anim.file_name),
                anim.file_size,
                copy_opt(&anim.mime_type),
            ),
        );
    }
    assert(entry_views(entries@) =~= entry_views(old(entries)@) + animation_part(*msg));
}

/// The files that a message carries, as index entries (see `classified`).
pub fn classify_message(msg: &Message) -> (entries: Vec<FileEntry>)
    ensures
        entry_views(entries@) == classified(*msg),
{
    let mut entries: Vec<FileEntry> = Vec::new();
    assert(entry_views(entries@) =~= Seq::<EntryView>::empty());
    add_document(msg, &mut entries);
    add_photo(msg, &mut entries);
    add_video(msg, &mut entries);
    add_audio(msg, &mut entries);
    add_voice(msg, &mut entries);
    add_animation(msg, &mut entries);
    assert(entry_views(entries@) =~= classified(*msg));
    entries
}

/// The start (00:00:00 UTC) of the day that `s` names in `YYYY-MM-DD` form,
/// as a Unix timestamp, as chrono's `NaiveDate::parse_from_str` reads it;
/// `None` where chrono refuses the text.
pub uninterp spec fn day_start(s: Seq<char>) -> Option<int>;

/// Calls chrono's `NaiveDate::parse_from_str(s, "%Y-%m-%d")` and turns the date
/// into the timestamp of its midnight UTC (`and_hms_opt(0, 0, 0)`, which chrono
/// accepts for every date, then `and_utc().timestamp()`). Claimed: the result
/// is `day_start(s)`. What chrono accepts as `%Y-%m-%d` is left to chrono.
#[verifier::external_body]
fn parse_day_start(s: &str) -> (r: Option<i64>)
    ensures
        match r {
            Some(t) => day_start(s@) == Some(t as int),
            None => day_start(s@) is None,
        },
{
    match chrono::NaiveDate::parse_from_str(s, "%Y-%m-%d") {
        Ok(date) => match date.and_hms_opt(0, 0, 0) {
            Some(midnight) => Some(midnight.and_utc().timestamp()),
            None => None,
        },
        Err(_) => None,
    }
}

/// A date that could not be read.
#[derive(Debug)]
pub enum DateError {
    /// The text is not a `YYYY-MM-DD` date; it is kept for the message.
    InvalidFormat(String),
}

/// Parses a `YYYY-MM-DD` date to the Unix timestamp of its start (UTC).
pub fn parse_date_to_timestamp(date_str: &str) -> (r: Result<i64, DateError>)
    ensures
        match r {
            Ok(t) => day_start(date_str@) == Some(t as int),
            Err(DateError::InvalidFormat(text)) => day_start(date_str@) is None && text@
                == date_str@,
        },
{
    match parse_day_start(date_str) {
        Some(t) => Ok(t),
        None => Err(DateError::InvalidFormat(String::from_str(date_str))),
    }
}

/// Whether an entry's date is at or after `after` and before the end of the
/// day that starts at `before_day` (that is, before `before_day + 86400`).
pub open spec fn in_date_range(e: EntryView, after: Option<int>, before_day: Option<int>) -> bool {
    &&& after matches Some(a) ==> e.date >= a
    &&& before_day matches Some(b) ==> e.date < b + 86400
}

/// The entries of `s` within the range, in their order.
pub open spec fn date_filtered(s: Seq<EntryView>, after: Option<int>, before_day: Option<int>) -> Seq<
    EntryView,
> {
    s.filter(|e: EntryView| in_date_range(e, after, before_day))
}

pub open spec fn opt_int(o: Option<i64>) -> Option<int> {
    match o {
        Some(x) => Some(x as int),
        None => None,
    }
}

/// Keeps the entries dated at or after `after` and before the end of the day
/// that starts at `before_day`, in their order.
pub fn filter_by_timestamp_range(
    files: Vec<FileEntry>,
    after: Option<i64>,
    before_day: Option<i64>,
) -> (r: Vec<FileEntry>)
    ensures
        entry_views(r@) == date_filtered(entry_views(files@), opt_int(after), opt_int(before_day)),
{
    let ghost s = entry_views(files@);
    let ghost a = opt_int(after);
    let ghost b = opt_int(before_day);
    let mut out: Vec<FileEntry> = Vec::new();
    let mut i: usize = 0;
    assert(entry_views(out@) =~= date_filtered(s.take(0), a, b)) by {
        reveal(Seq::filter);
    }
    while i < files.len()
        invariant
            i <= files.len(),
            s == entry_views(files@),
            a == opt_int(after),
            b == opt_int(before_day),
            entry_views(out@) == date_filtered(s.take(i as int), a, b),
        decreases files.len() - i,
    {
        let d = files[i].date as i128;
        let keep_after = match after {
            Some(x) => d >= x as i128,
            None => true,
        };
        let keep_before = match before_day {
            Some(x) => d < x as i128 + 86400,
            None => true,
        };
        let keep = keep_after && keep_before;
        assert(keep == in_date_range(s[i as int], a, b));
        let ghost prev = entry_views(out@);
        if keep {
            out.push(files[i].duplicate());
        }
        i = i + 1;
        assert(s.take(i as int).drop_last() =~= s.take(i - 1));
        assert(entry_views(out@) =~= date_filtered(s.take(i as int), a, b)) by {
            reveal(Seq::filter);
            if keep {
                assert(entry_views(out@) =~= prev.push(s[i - 1]));
            } else {
                assert(entry_views(out@) =~= prev);
            }
        }
    }
    assert(s.take(i as int) =~= s);
    out
}

/// What reading an optional date bound gives: no bound, the day's start, or
/// (`None`) a refusal.
pub open spec fn bound_of(o: Option<Seq<char>>) -> Option<Option<int>> {
    match o {
        None => Some(None),
        Some(text) => match day_start(text) {
            Some(t) => Some(Some(t)),
            None => None,
        },
    }
}

pub open spec fn opt_str(o: Option<&str>) -> Option<Seq<char>> {
    match o {
        Some(s) => Some(s@),
        None => None,
    }
}

/// Keeps the entries dated on or after the day `after` and on or before the
/// day `before` (both `YYYY-MM-DD`, both optional), in their order. A date
/// that cannot be read is an error; `after` is read first.
pub fn filter_by_date_range(
    files: Vec<FileEntry>,
    after: Option<&str>,
    before: Option<&str>,
) -> (r: Result<Vec<FileEntry>, DateError>)
    ensures
        r is Ok <==> bound_of(opt_str(after)) is Some && bound_of(opt_str(before)) is Some,
        r matches Ok(v) ==> entry_views(v@) == date_filtered(
            entry_views(files@),
            bound_of(opt_str(after))->0,
            bound_of(opt_str(before))->0,
        ),
        r matches Err(DateError::InvalidFormat(text)) ==> if bound_of(opt_str(after)) is None {
            text@ == opt_str(after)->0
        } else {
            text@ == opt_str(before)->0
        },
{
    let after_ts = match after {
        Some(a) => match parse_date_to_timestamp(a) {
            Ok(t) => Some(t),
            Err(e) => {
                return Err(e);
            },
        },
        None => None,
    };
    let before_ts = match before {
        Some(b) => match parse_date_to_timestamp(b) {
            Ok(t) => Some(t),
            Err(e) => {
                return Err(e);
            },
        },
        None => None,
    };
    Ok(filter_by_timestamp_range(files, after_ts, before_ts))
}

/// The entry is one of a message's attachments: it carries the message's
/// chat, id, date and caption, and is not yet downloaded.
pub open spec fn from_message(e: EntryView, msg: Message) -> bool {
    &&& e.chat_id == msg.chat.id
    &&& e.message_id == msg.message_id
    &&& e.date == msg.date
    &&& e.caption == opt_view(msg.caption)
    &&& !e.downloaded
}

proof fn lemma_part_from_message(p: Seq<EntryView>, msg: Message)
    requires
        p.len() <= 1,
        p.len() == 1 ==> from_message(p[0], msg),
    ensures
        forall|k: int| 0 <= k < p.len() ==> from_message(#[trigger] p[k], msg),
{
}

/// Every entry a message yields belongs to that message and starts out not
/// downloaded; a message yields at most one entry per kind of attachment, so
/// at most six.
pub proof fn lemma_classified_from_message(msg: Message)
    ensures
        classified(msg).len() <= 6,
        forall|k: int|
            0 <= k < classified(msg).len() ==> from_message(#[trigger] classified(msg)[k], msg),
{
    lemma_part_from_message(document_part(msg), msg);
    lemma_part_from_message(photo_part(msg), msg);
    lemma_part_from_message(video_part(msg), msg);
    lemma_part_from_message(audio_part(msg), msg);
    lemma_part_from_message(voice_part(msg), msg);
    lemma_part_from_message(animation_part(msg), msg);
    let a = document_part(msg) + photo_part(msg);
    let b = a + video_part(msg);
    let c = b + audio_part(msg);
    let d = c + voice_part(msg);
    let e = d + animation_part(msg);
    assert forall|k: int| 0 <= k < a.len() implies from_message(#[trigger] a[k], msg) by {
        if k < document_part(msg).len() {
            assert(a[k] == document_part(msg)[k]);
        } else {
            assert(a[k] == photo_part(msg)[k - document_part(msg).len()]);
        }
    }
    assert forall|k: int| 0 <= k < b.len() implies from_message(#[trigger] b[k], msg) by {
        if k < a.len() {
            assert(b[k] == a[k]);
        } else {
            assert(b[k] == video_part(msg)[k - a.len()]);
        }
    }
    assert forall|k: int| 0 <= k < c.len() implies from_message(#[trigger] c[k], msg) by {
        if k < b.len() {
            assert(c[k] == b[k]);
        } else {
            assert(c[k] == audio_part(msg)[k - b.len()]);
        }
    }
    assert forall|k: int| 0 <= k < d.len() implies from_message(#[trigger] d[k], msg) by {
        if k < c.len() {
            assert(d[k] == c[k]);
        } else {
            assert(d[k] == voice_part(msg)[k - c.len()]);
        }
    }
    assert forall|k: int| 0 <= k < e.len() implies from_message(#[trigger] e[k], msg) by {
        if k < d.len() {
            assert(e[k] == d[k]);
        } else {
            assert(e[k] == animation_part(msg)[k - d.len()]);
        }
    }
}

/// A date filter keeps exactly the entries within the range: every entry it
/// returns was given and lies in the range, and every given entry in the
/// range is returned.
pub proof fn lemma_date_filter_exact(s: Seq<EntryView>, after: Option<int>, before_day: Option<int>)
    ensures
        forall|k: int|
            0 <= k < date_filtered(s, after, before_day).len() ==> in_date_range(
                #[trigger] date_filtered(s, after, before_day)[k],
                after,
                before_day,
            ) && s.contains(date_filtered(s, after, before_day)[k]),
        forall|k: int|
            0 <= k < s.len() && in_date_range(s[k], after, before_day) ==> date_filtered(
                s,
                after,
                before_day,
            ).contains(#[trigger] s[k]),
{
    broadcast use vstd::seq_lib::group_filter_ensures;

    let pred = |e: EntryView| in_date_range(e, after, before_day);
    let r = date_filtered(s, after, before_day);
    assert forall|k: int| 0 <= k < r.len() implies in_date_range(#[trigger] r[k], after, before_day)
        && s.contains(r[k]) by {
        assert(pred(r[k]));
        assert(r.contains(r[k]));
        s.lemma_filter_contains_rev(pred, r[k]);
    }
    assert forall|k: int| 0 <= k < s.len() && in_date_range(s[k], after, before_day) implies r.contains(
        #[trigger] s[k],
    ) by {
        assert(pred(s[k]));
        s.lemma_filter_contains(pred, k);
    }
}

/// Each attachment of a message becomes exactly one entry, which carries the
/// attachment's own ids, name, size and MIME type: a document is a PDF when
/// its MIME type is `application/pdf`; a photo is its last (largest) size,
/// with no name and type `image/jpeg`; an audio file without a name is named
/// after its title plus `.mp3`; a voice note has no name. No other entry is
/// made.
pub proof fn lemma_classified_attachments(msg: Message)
    ensures
        classified(msg).len() == (if msg.document is Some {
            1int
        } else {
            0
        }) + (if msg.photo matches Some(ps) && ps@.len() > 0 {
            1int
        } else {
            0
        }) + (if msg.video is Some {
            1int
        } else {
            0
        }) + (if msg.audio is Some {
            1int
        } else {
            0
        }) + (if msg.voice is Some {
            1int
        } else {
            0
        }) + (if msg.animation is Some {
            1int
        } else {
            0
        }),
        msg.document matches Some(d) ==> classified(msg).contains(
            attachment_entry(
                msg,
                d.file_id@,
                d.file_unique_id@,
                if opt_view(d.mime_type) == Some("application/pdf"@) {
                    FileType::Pdf
                } else {
                    FileType::Document
                },
                opt_view(d.file_name),
                d.file_size,
                opt_view(d.mime_type),
            ),
        ),
        msg.photo matches Some(ps) ==> (ps@.len() > 0 ==> classified(msg).contains(
            attachment_entry(
                msg,
                ps@[ps@.len() - 1].file_id@,
                ps@[ps@.len() - 1].file_unique_id@,
                FileType::Image,
                None,
                ps@[ps@.len() - 1].file_size,
                Some("image/jpeg"@),
            ),
        )),
        msg.video matches Some(v) ==> classified(msg).contains(
            attachment_entry(
                msg,
                v.file_id@,
                v.file_unique_id@,
                FileType::Video,
                opt_view(v.file_name),
                v.file_size,
                opt_view(v.mime_type),
            ),
        ),
        msg.audio matches Some(a) ==> classified(msg).contains(
            attachment_entry(
                msg,
                a.file_id@,
                a.file_unique_id@,
                FileType::Audio,
                match a.file_name {
                    Some(n) => Some(n@),
                    None => match a.title {
                        Some(t) => Some(t@ + ".mp3"@),
                        None => None,
                    },
                },
                a.file_size,
                opt_view(a.mime_type),
            ),
        ),
        msg.voice matches Some(v) ==> classified(msg).contains(
            attachment_entry(
                msg,
                v.file_id@,
                v.file_unique_id@,
                FileType::Voice,
                None,
                v.file_size,
                opt_view(v.mime_type),
            ),
        ),
        msg.animation matches Some(a) ==> classified(msg).contains(
            attachment_entry(
                msg,
                a.file_id@,
                a.file_unique_id@,
                FileType::Animation,
                opt_view(a.file_name),
                a.file_size,
                opt_view(a.mime_type),
            ),
        ),
{
    let dp = document_part(msg);
    let pp = photo_part(msg);
    let vp = video_part(msg);
    let ap = audio_part(msg);
    let op = voice_part(msg);
    let np = animation_part(msg);
    let c = classified(msg);
    let o1 = dp.len() as int;
    let o2 = o1 + pp.len();
    let o3 = o2 + vp.len();
    let o4 = o3 + ap.len();
    let o5 = o4 + op.len();
    assert(c == dp + pp + vp + ap + op + np);
    if dp.len() == 1 {
        assert(c[0] == dp[0]);
    }
    if pp.len() == 1 {
        assert(c[o1] == pp[0]);
    }
    if vp.len() == 1 {
        assert(c[o2] == vp[0]);
    }
    if ap.len() == 1 {
        assert(c[o3] == ap[0]);
    }
    if op.len() == 1 {
        assert(c[o4] == op[0]);
    }
    if np.len() == 1 {
        assert(c[o5] == np[0]);
    }
}

} // verus!
